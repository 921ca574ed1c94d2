//! What holds of hash keys, whatever they were built of.
use vstd::prelude::*;
use vstd::std_specs::cmp::PartialEqSpec;

use crate::array::ArrayBuilderImpl;
use crate::data_chunk::{row_hash, DataChunk};
use crate::hash_key::{
    appended, builder_types, fixed_data, fixed_types, null_columns, read_fixed, read_serialized,
    ArrayError, FixedSizeKey, HashKey, KeyModel, ReadColumns, SerializedKey,
};
use crate::hash_key_serde::{fixed_bytes, fixed_value_round_trip, is_fixed_scalar};
use crate::null_bitmap::{
    EstimateSize, HeapNullBitmap, NullBitmap, StackNullBitmap, MAX_FIXED_KEY_COLUMNS,
};
use crate::scalar::{normal_row, row_typed, typed, DataType, Scalar};
use crate::value_encoding::{datum_round_trip, plain_width, row_bytes, row_bytes_injective};
use crate::value_laws::{normalizing_keeps_rows, same_datum, same_row};

verus! {

/// A row read out of a key without a failure.
pub open spec fn read_whole(row: Seq<Option<Scalar>>) -> Option<ReadColumns> {
    Some((row, None::<ArrayError>))
}

/// There is a builder for each of the types.
pub open spec fn builders_for(builders: Seq<ArrayBuilderImpl>, tys: Seq<DataType>) -> bool {
    &&& builders.len() == tys.len()
    &&& forall|i: int|
        #![trigger builders[i]]
        0 <= i < builders.len() ==> builders[i].is_for(tys[i])
}

/// The bytes of one column in a key of fixed size.
spec fn column_data(d: Option<Scalar>) -> Seq<u8> {
    match d {
        None => Seq::empty(),
        Some(s) => fixed_bytes(s),
    }
}

proof fn lemma_fixed_data_front(row: Seq<Option<Scalar>>)
    requires
        row.len() > 0,
    ensures
        fixed_data(row) == column_data(row[0]) + fixed_data(row.drop_first()),
    decreases row.len(),
{
    if row.len() == 1 {
        assert(row.drop_last() =~= Seq::empty());
        assert(row.drop_first() =~= Seq::empty());
        assert(fixed_data(row) =~= column_data(row[0]) + fixed_data(row.drop_first()));
    } else {
        lemma_fixed_data_front(row.drop_last());
        assert(row.drop_last().drop_first() =~= row.drop_first().drop_last());
        assert(fixed_data(row) =~= column_data(row[0]) + fixed_data(row.drop_first()));
    }
}

proof fn lemma_read_fixed_row(
    row: Seq<Option<Scalar>>,
    tys: Seq<DataType>,
    nulls: Set<int>,
    column: nat,
    pad: Seq<u8>,
)
    requires
        row_typed(row, tys),
        column + row.len() <= MAX_FIXED_KEY_COLUMNS,
        forall|i: int| 0 <= i < row.len() && row[i] is Some ==> is_fixed_scalar(
            #[trigger] row[i]->0,
        ),
        forall|i: int|
            0 <= i < row.len() ==> (#[trigger] row[i] is None <==> nulls.contains(column + i)),
    ensures
        read_fixed(fixed_data(row) + pad, nulls, fixed_types(tys), column) == read_whole(
            normal_row(row),
        ),
    decreases row.len(),
{
    let b = fixed_data(row) + pad;
    if row.len() == 0 {
        assert(normal_row(row) =~= Seq::empty());
    } else {
        lemma_fixed_data_front(row);
        let (rest, rest_tys) = (row.drop_first(), tys.drop_first());
        let tail = fixed_data(rest) + pad;
        assert(b =~= column_data(row[0]) + tail);
        assert(typed(row[0], tys[0]));
        assert(row[0] is None <==> nulls.contains(column as int));
        assert(fixed_types(tys)[0] == tys[0].as_fixed_type());
        assert(fixed_types(tys).drop_first() =~= fixed_types(rest_tys));
        match row[0] {
            None => {
                assert(b =~= tail);
            },
            Some(s) => {
                assert(is_fixed_scalar(row[0]->0));
                fixed_value_round_trip(s, tys[0]);
                let n = plain_width(tys[0]) as int;
                assert(b.take(n) =~= fixed_bytes(s));
                assert(b.skip(n) =~= tail);
            },
        }
        assert forall|i: int| #![trigger rest[i]] 0 <= i < rest.len() implies typed(
            rest[i],
            rest_tys[i],
        ) by {
            assert(typed(row[i + 1], tys[i + 1]));
        }
        assert forall|i: int| 0 <= i < rest.len() && rest[i] is Some implies is_fixed_scalar(
            #[trigger] rest[i]->0,
        ) by {
            assert(rest[i] == row[i + 1]);
            assert(is_fixed_scalar(row[i + 1]->0));
        }
        assert forall|i: int| 0 <= i < rest.len() implies (#[trigger] rest[i] is None
            <==> nulls.contains(column + 1 + i)) by {
            assert(row[i + 1] is None <==> nulls.contains(column + (i + 1)));
        }
        lemma_read_fixed_row(rest, rest_tys, nulls, column + 1, pad);
        assert(normal_row(row) =~= seq![normal_row(row)[0]] + normal_row(rest));
    }
}

/// A row comes back out of its key of fixed size, up to the form of its numbers: each value
/// comes back as the one that stands for all values equal to it, and nulls as nulls.
pub proof fn fixed_key_round_trip<const N: usize, B: NullBitmap>(
    key: FixedSizeKey<N, B>,
    row: Seq<Option<Scalar>>,
    tys: Seq<DataType>,
)
    requires
        key.encodes(row),
        row_typed(row, tys),
    ensures
        key.reads(tys) == read_whole(normal_row(row)),
        forall|builders: Seq<ArrayBuilderImpl>| #[trigger]
            builders_for(builders, tys) ==> key.reads_into(builders, tys) == read_whole(
                normal_row(row),
            ),
{
    let pad = Seq::new((N - fixed_data(row).len()) as nat, |i: int| 0u8);
    assert(key.data() == fixed_data(row) + pad);
    lemma_read_fixed_row(row, tys, key.null_bits().bits(), 0, pad);
    assert forall|builders: Seq<ArrayBuilderImpl>| #[trigger] builders_for(
        builders,
        tys,
    ) implies key.reads_into(builders, tys) == read_whole(normal_row(row)) by {
        assert forall|i: int| 0 <= i < tys.len() implies builder_types(builders)[i] == fixed_types(
            tys,
        )[i] by {
            assert(builders[i].is_for(tys[i]));
        }
        assert(builder_types(builders) =~= fixed_types(tys));
    }
}

/// Two rows that read the same have the same key.
proof fn lemma_fixed_data_normal(a: Seq<Option<Scalar>>, b: Seq<Option<Scalar>>)
    requires
        normal_row(a) == normal_row(b),
    ensures
        fixed_data(a) == fixed_data(b),
        null_columns(a) == null_columns(b),
    decreases a.len(),
{
    assert(a.len() == normal_row(a).len() == b.len());
    assert forall|i: int| 0 <= i < a.len() implies (a[i] is None <==> b[i] is None) by {
        assert(normal_row(a)[i] == normal_row(b)[i]);
    }
    assert(null_columns(a) =~= null_columns(b));
    if a.len() > 0 {
        assert(normal_row(a.drop_last()) =~= normal_row(a).drop_last());
        assert(normal_row(b.drop_last()) =~= normal_row(b).drop_last());
        lemma_fixed_data_normal(a.drop_last(), b.drop_last());
        assert(normal_row(a)[a.len() - 1] == normal_row(b)[a.len() - 1]);
        assert(column_data(a.last()) == column_data(b.last()));
    }
}

/// Keys of fixed size are equal exactly when their rows are, value by value. Null equals null.
pub proof fn fixed_keys_equal_iff_rows_equal<const N: usize, B: NullBitmap>(
    a: FixedSizeKey<N, B>,
    a_row: Seq<Option<Scalar>>,
    b: FixedSizeKey<N, B>,
    b_row: Seq<Option<Scalar>>,
    tys: Seq<DataType>,
)
    requires
        a.encodes(a_row),
        b.encodes(b_row),
        row_typed(a_row, tys),
        row_typed(b_row, tys),
    ensures
        a.eq_spec(&b) <==> normal_row(a_row) == normal_row(b_row),
{
    B::equality_law(a.null_bits(), b.null_bits());
    fixed_key_round_trip(a, a_row, tys);
    fixed_key_round_trip(b, b_row, tys);
    if normal_row(a_row) == normal_row(b_row) {
        lemma_fixed_data_normal(a_row, b_row);
    }
}

/// Equal keys of fixed size have equal hash codes, where the codes are those of their rows.
pub proof fn equal_fixed_keys_hash_alike<const N: usize, B: NullBitmap>(
    a: FixedSizeKey<N, B>,
    a_row: Seq<Option<Scalar>>,
    b: FixedSizeKey<N, B>,
    b_row: Seq<Option<Scalar>>,
    tys: Seq<DataType>,
)
    requires
        a.encodes(a_row),
        b.encodes(b_row),
        row_typed(a_row, tys),
        row_typed(b_row, tys),
        a.code() == row_hash(a_row),
        b.code() == row_hash(b_row),
        a.eq_spec(&b),
    ensures
        a.code() == b.code(),
{
    fixed_keys_equal_iff_rows_equal(a, a_row, b, b_row, tys);
}

proof fn lemma_read_serialized_row(row: Seq<Option<Scalar>>, tys: Seq<DataType>)
    requires
        row_typed(row, tys),
    ensures
        read_serialized(row_bytes(row), tys) == (row, None::<ArrayError>),
    decreases row.len(),
{
    if row.len() == 0 {
        assert(row =~= Seq::empty());
    } else {
        let (rest, rest_tys) = (row.drop_first(), tys.drop_first());
        assert(typed(row[0], tys[0]));
        datum_round_trip(row[0], tys[0], row_bytes(rest));
        assert forall|i: int| #![trigger rest[i]] 0 <= i < rest.len() implies typed(
            rest[i],
            rest_tys[i],
        ) by {
            assert(typed(row[i + 1], tys[i + 1]));
        }
        lemma_read_serialized_row(rest, rest_tys);
        assert(seq![row[0]] + rest =~= row);
    }
}

/// A row comes back out of its serialized key, as it was.
pub proof fn serialized_key_round_trip<B: NullBitmap>(
    key: SerializedKey<B>,
    row: Seq<Option<Scalar>>,
    tys: Seq<DataType>,
)
    requires
        key.encodes(row),
        row_typed(row, tys),
    ensures
        key.reads(tys) == read_whole(row),
        forall|builders: Seq<ArrayBuilderImpl>| #[trigger]
            builders_for(builders, tys) ==> key.reads_into(builders, tys) == read_whole(row),
{
    lemma_read_serialized_row(row, tys);
    assert forall|builders: Seq<ArrayBuilderImpl>| #[trigger] builders_for(
        builders,
        tys,
    ) implies key.reads_into(builders, tys) == read_whole(row) by {
        assert forall|i: int| 0 <= i < row.len() && i < builders.len() implies (
        #[trigger] builders[i]).takes(row[i]) by {
            assert(typed(row[i], tys[i]));
        }
    }
}

/// Serialized keys are equal exactly when their rows are. Null equals null.
pub proof fn serialized_keys_equal_iff_rows_equal<B: NullBitmap>(
    a: SerializedKey<B>,
    a_row: Seq<Option<Scalar>>,
    b: SerializedKey<B>,
    b_row: Seq<Option<Scalar>>,
    tys: Seq<DataType>,
)
    requires
        a.encodes(a_row),
        b.encodes(b_row),
        row_typed(a_row, tys),
        row_typed(b_row, tys),
    ensures
        a.eq_spec(&b) <==> a_row == b_row,
{
    if row_bytes(a_row) == row_bytes(b_row) {
        row_bytes_injective(a_row, b_row, tys);
    }
}

/// Equal serialized keys have equal hash codes, where the codes are those of their rows.
pub proof fn equal_serialized_keys_hash_alike<B: NullBitmap>(
    a: SerializedKey<B>,
    a_row: Seq<Option<Scalar>>,
    b: SerializedKey<B>,
    b_row: Seq<Option<Scalar>>,
    tys: Seq<DataType>,
)
    requires
        a.encodes(a_row),
        b.encodes(b_row),
        row_typed(a_row, tys),
        row_typed(b_row, tys),
        a.code() == row_hash(a_row),
        b.code() == row_hash(b_row),
        a.eq_spec(&b),
    ensures
        a.code() == b.code(),
{
    serialized_keys_equal_iff_rows_equal(a, a_row, b, b_row, tys);
}

proof fn lemma_null_bits<B: NullBitmap>(bits: B, row: Seq<Option<Scalar>>)
    requires
        bits.bits() == null_columns(row),
        bits.tight(),
    ensures
        bits.reports_empty() <==> (forall|i: int|
            0 <= i < row.len() ==> (#[trigger] row[i]) is Some),
{
    B::emptiness_law(bits);
    if null_columns(row) == Set::<int>::empty() {
        assert forall|i: int| 0 <= i < row.len() implies (#[trigger] row[i]) is Some by {
            assert(!null_columns(row).contains(i));
        }
    }
    if forall|i: int| 0 <= i < row.len() ==> (#[trigger] row[i]) is Some {
        assert(null_columns(row) =~= Set::<int>::empty());
    }
}

/// A key of fixed size reports a null exactly when a column of its row is null.
pub proof fn fixed_key_has_null_iff_row_has<const N: usize, B: NullBitmap>(
    key: FixedSizeKey<N, B>,
    row: Seq<Option<Scalar>>,
)
    requires
        key.encodes(row),
    ensures
        key.bitmap().reports_empty() <==> (forall|i: int|
            0 <= i < row.len() ==> (#[trigger] row[i]) is Some),
{
    lemma_null_bits(key.null_bits(), row);
}

/// A serialized key reports a null exactly when a column of its row is null.
pub proof fn serialized_key_has_null_iff_row_has<B: NullBitmap>(
    key: SerializedKey<B>,
    row: Seq<Option<Scalar>>,
)
    requires
        key.encodes(row),
    ensures
        key.bitmap().reports_empty() <==> (forall|i: int|
            0 <= i < row.len() ==> (#[trigger] row[i]) is Some),
{
    lemma_null_bits(key.null_bits(), row);
}

/// `states` are what builders go through while rows are appended to them, one row at a time.
pub open spec fn rows_appended(
    states: Seq<Seq<ArrayBuilderImpl>>,
    rows: Seq<Seq<Option<Scalar>>>,
) -> bool {
    &&& states.len() == rows.len() + 1
    &&& forall|k: int|
        #![trigger rows[k]]
        0 <= k < rows.len() ==> appended(states[k], states[k + 1], rows[k])
}

/// Reading the keys of all rows into empty builders rebuilds the columns: column `c` holds the
/// column `c` of each row, in the order of the rows.
pub proof fn rows_rebuild_columns(
    states: Seq<Seq<ArrayBuilderImpl>>,
    rows: Seq<Seq<Option<Scalar>>>,
    c: int,
)
    requires
        rows_appended(states, rows),
        forall|k: int| #![trigger rows[k]] 0 <= k < rows.len() ==> c < rows[k].len(),
        0 <= c < states[0].len(),
        states[0][c].datums() == Seq::<Option<Scalar>>::empty(),
    ensures
        c < states.last().len(),
        states.last()[c].datums() == Seq::new(rows.len(), |k: int| rows[k][c]),
    decreases rows.len(),
{
    if rows.len() == 0 {
        assert(states.last()[c].datums() =~= Seq::new(rows.len(), |k: int| rows[k][c]));
    } else {
        let (fewer_states, fewer_rows) = (states.drop_last(), rows.drop_last());
        assert forall|k: int|
            #![trigger fewer_rows[k]]
            0 <= k < fewer_rows.len() implies appended(
            fewer_states[k],
            fewer_states[k + 1],
            fewer_rows[k],
        ) && c < fewer_rows[k].len() by {
            assert(fewer_rows[k] == rows[k]);
        }
        rows_rebuild_columns(fewer_states, fewer_rows, c);
        let n = rows.len() - 1;
        assert(appended(states[n], states[n + 1], rows[n]));
        assert(states.last()[c].datums() =~= Seq::new(rows.len(), |k: int| rows[k][c]));
    }
}

/// Keys of fixed size are equal exactly when the rows are the same, column by column: a column is
/// the same where both are null, where both are forms of one number, or where nothing differs.
pub proof fn fixed_keys_tell_rows_apart<const N: usize, B: NullBitmap>(
    a: FixedSizeKey<N, B>,
    a_row: Seq<Option<Scalar>>,
    b: FixedSizeKey<N, B>,
    b_row: Seq<Option<Scalar>>,
    tys: Seq<DataType>,
)
    requires
        a.encodes(a_row),
        b.encodes(b_row),
        row_typed(a_row, tys),
        row_typed(b_row, tys),
    ensures
        a.eq_spec(&b) <==> same_row(a_row, b_row),
{
    fixed_keys_equal_iff_rows_equal(a, a_row, b, b_row, tys);
    normalizing_keeps_rows(a_row, b_row);
}

/// What is read back from a key of fixed size is the same row: floats and decimals are the same
/// numbers, and all other columns come back as they were.
pub proof fn fixed_key_gives_the_row_back<const N: usize, B: NullBitmap>(
    key: FixedSizeKey<N, B>,
    row: Seq<Option<Scalar>>,
    tys: Seq<DataType>,
)
    requires
        key.encodes(row),
        row_typed(row, tys),
    ensures
        key.reads(tys) matches Some((back, error)) && error is None && same_row(row, back),
        forall|builders: Seq<ArrayBuilderImpl>| #[trigger]
            builders_for(builders, tys) ==> (key.reads_into(builders, tys) matches Some((
                back,
                error,
            )) && error is None && same_row(row, back)),
{
    fixed_key_round_trip(key, row, tys);
    normalizing_keeps_rows(row, row);
}

/// Two rows of a chunk fall into one group, by keys of fixed size, exactly when they have the same
/// datum in each of the columns of the key.
pub proof fn fixed_keys_group_rows<const N: usize, B: NullBitmap>(
    chunk: DataChunk,
    column_idxes: Seq<usize>,
    i: int,
    j: int,
    a: FixedSizeKey<N, B>,
    b: FixedSizeKey<N, B>,
    tys: Seq<DataType>,
)
    requires
        a.encodes(chunk.row(column_idxes, i)),
        b.encodes(chunk.row(column_idxes, j)),
        row_typed(chunk.row(column_idxes, i), tys),
        row_typed(chunk.row(column_idxes, j), tys),
    ensures
        a.eq_spec(&b) <==> (forall|k: int|
            #![trigger column_idxes[k]]
            0 <= k < column_idxes.len() ==> same_datum(
                chunk.columns_view()[column_idxes[k] as int].datums()[i],
                chunk.columns_view()[column_idxes[k] as int].datums()[j],
            )),
{
    let (p, q) = (chunk.row(column_idxes, i), chunk.row(column_idxes, j));
    fixed_keys_tell_rows_apart(a, p, b, q, tys);
    assert(p.len() == column_idxes.len() && q.len() == column_idxes.len());
    if same_row(p, q) {
        assert forall|k: int|
            #![trigger column_idxes[k]]
            0 <= k < column_idxes.len() implies same_datum(
            chunk.columns_view()[column_idxes[k] as int].datums()[i],
            chunk.columns_view()[column_idxes[k] as int].datums()[j],
        ) by {
            assert(same_datum(p[k], q[k]));
        }
    }
    if forall|k: int|
        #![trigger column_idxes[k]]
        0 <= k < column_idxes.len() ==> same_datum(
            chunk.columns_view()[column_idxes[k] as int].datums()[i],
            chunk.columns_view()[column_idxes[k] as int].datums()[j],
        ) {
        assert forall|k: int| #![trigger p[k], q[k]] 0 <= k < p.len() implies same_datum(
            p[k],
            q[k],
        ) by {
            assert(column_idxes[k] == column_idxes[k]);
        }
    }
}

/// Two rows of a chunk fall into one group, by serialized keys, exactly when nothing differs in
/// the columns of the key.
pub proof fn serialized_keys_group_rows<B: NullBitmap>(
    chunk: DataChunk,
    column_idxes: Seq<usize>,
    i: int,
    j: int,
    a: SerializedKey<B>,
    b: SerializedKey<B>,
    tys: Seq<DataType>,
)
    requires
        a.encodes(chunk.row(column_idxes, i)),
        b.encodes(chunk.row(column_idxes, j)),
        row_typed(chunk.row(column_idxes, i), tys),
        row_typed(chunk.row(column_idxes, j), tys),
    ensures
        a.eq_spec(&b) <==> (forall|k: int|
            #![trigger column_idxes[k]]
            0 <= k < column_idxes.len()
                ==> chunk.columns_view()[column_idxes[k] as int].datums()[i]
                == chunk.columns_view()[column_idxes[k] as int].datums()[j]),
{
    let (p, q) = (chunk.row(column_idxes, i), chunk.row(column_idxes, j));
    serialized_keys_equal_iff_rows_equal(a, p, b, q, tys);
    if p == q {
        assert forall|k: int|
            #![trigger column_idxes[k]]
            0 <= k < column_idxes.len() implies chunk.columns_view()[column_idxes[k] as int].datums()[i]
            == chunk.columns_view()[column_idxes[k] as int].datums()[j] by {
            assert(p[k] == q[k]);
        }
    }
    if forall|k: int|
        #![trigger column_idxes[k]]
        0 <= k < column_idxes.len() ==> chunk.columns_view()[column_idxes[k] as int].datums()[i]
            == chunk.columns_view()[column_idxes[k] as int].datums()[j] {
        assert forall|k: int| 0 <= k < p.len() implies p[k] == q[k] by {
            assert(column_idxes[k] == column_idxes[k]);
        }
        assert(p =~= q);
    }
}

/// Rows that are the same, column by column, have the same hash code.
pub proof fn same_rows_hash_alike(a: Seq<Option<Scalar>>, b: Seq<Option<Scalar>>)
    requires
        same_row(a, b),
    ensures
        row_hash(a) == row_hash(b),
{
    normalizing_keeps_rows(a, b);
}

/// A key of fixed size has nothing on the heap but its bitmap. A serialized key has the byte form
/// of its row there too. A bitmap on the heap takes up whole blocks of four bytes, with a bit for
/// each position and less than a block to spare; one on the stack takes up nothing.
pub proof fn heap_sizes<const N: usize, B: NullBitmap>(
    fixed: FixedSizeKey<N, B>,
    serialized: SerializedKey<B>,
    row: Seq<Option<Scalar>>,
    on_stack: StackNullBitmap,
    on_heap: HeapNullBitmap,
)
    requires
        serialized.encodes(row),
    ensures
        fixed.heap_size() == fixed.null_bits().heap_size(),
        serialized.heap_size() == row_bytes(row).len() + serialized.null_bits().heap_size(),
        on_stack.heap_size() == 0,
        on_heap.heap_size() % 4 == 0,
        on_heap.repr().len() <= 8 * on_heap.heap_size() < on_heap.repr().len() + 32,
{
}

} // verus!
