//! Chunks of rows, held column by column.
use vstd::prelude::*;

use crate::array::ArrayImpl;
use crate::hash_code::{xxhash64, XxHash64Builder, XxHash64HashCode};
use crate::scalar::{
    datum_model, normal_datum, normal_row, Datum, Scalar, ScalarImpl,
};
use crate::value_encoding::{lemma_row_bytes_push, row_bytes, serialize_datum_into};

verus! {

/// The hash code of a row. Rows that are equal have the same.
pub open spec fn row_hash(row: Seq<Option<Scalar>>) -> u64 {
    xxhash64(row_bytes(normal_row(row)))
}

/// Rows, held column by column.
#[derive(Debug)]
pub struct DataChunk {
    columns: Vec<ArrayImpl>,
    capacity: usize,
}

/// The datum that stands for all datums equal to `d`.
fn normalized_datum(d: Datum) -> (r: Datum)
    ensures
        datum_model(r) == normal_datum(datum_model(d)),
{
    match d {
        None => None,
        Some(ScalarImpl::Float32(v)) => Some(ScalarImpl::Float32(v.normalized())),
        Some(ScalarImpl::Float64(v)) => Some(ScalarImpl::Float64(v.normalized())),
        Some(ScalarImpl::Decimal(v)) => Some(ScalarImpl::Decimal(v.normalize())),
        Some(s) => Some(s),
    }
}

impl DataChunk {
    pub closed spec fn columns_view(&self) -> Seq<ArrayImpl> {
        self.columns@
    }

    /// The number of rows.
    pub closed spec fn rows(&self) -> nat {
        self.capacity as nat
    }

    /// All columns have the same length.
    pub open spec fn wf(&self) -> bool {
        forall|c: int|
            0 <= c < self.columns_view().len() ==> (#[trigger] self.columns_view()[c]).datums().len()
                == self.rows()
    }

    /// The chunk has each of the columns.
    pub open spec fn has_columns(&self, column_idxes: Seq<usize>) -> bool {
        forall|k: int|
            0 <= k < column_idxes.len() ==> (#[trigger] column_idxes[k]) < self.columns_view().len()
    }

    /// The row at `i`, cut down to the given columns, in their order.
    pub open spec fn row(&self, column_idxes: Seq<usize>, i: int) -> Seq<Option<Scalar>> {
        Seq::new(
            column_idxes.len(),
            |k: int| self.columns_view()[column_idxes[k] as int].datums()[i],
        )
    }

    pub fn new(columns: Vec<ArrayImpl>, capacity: usize) -> (r: Self)
        requires
            forall|c: int|
                0 <= c < columns@.len() ==> (#[trigger] columns@[c]).datums().len() == capacity,
        ensures
            r.wf(),
            r.columns_view() == columns@,
            r.rows() == capacity,
    {
        DataChunk { columns, capacity }
    }

    pub fn capacity(&self) -> (n: usize)
        ensures
            n == self.rows(),
    {
        self.capacity
    }

    pub fn columns(&self) -> (r: &[ArrayImpl])
        ensures
            r@ == self.columns_view(),
    {
        self.columns.as_slice()
    }

    pub fn column_at(&self, idx: usize) -> (r: &ArrayImpl)
        requires
            idx < self.columns_view().len(),
        ensures
            *r == self.columns_view()[idx as int],
    {
        &self.columns[idx]
    }

    /// The hash code of each row, over the given columns.
    pub fn get_hash_values(&self, column_idxes: &[usize], hasher: XxHash64Builder) -> (r: Vec<
        XxHash64HashCode,
    >)
        requires
            self.wf(),
            self.has_columns(column_idxes@),
        ensures
            r@.len() == self.rows(),
            forall|i: int|
                0 <= i < r@.len() ==> (#[trigger] r@[i]).code() == row_hash(
                    self.row(column_idxes@, i),
                ),
    {
        let mut r: Vec<XxHash64HashCode> = Vec::new();
        let mut i: usize = 0;
        while i < self.capacity
            invariant
                i <= self.capacity,
                self.wf(),
                self.has_columns(column_idxes@),
                r@.len() == i,
                forall|j: int|
                    0 <= j < i ==> (#[trigger] r@[j]).code() == row_hash(
                        self.row(column_idxes@, j),
                    ),
            decreases self.capacity - i,
        {
            let bytes = self.encode_row(column_idxes, i, true);
            r.push(hasher.hash_bytes(bytes.as_slice()));
            i = i + 1;
        }
        r
    }

    /// The byte form of a row, or of the row that stands for all rows equal to it.
    fn encode_row(&self, column_idxes: &[usize], i: usize, normal: bool) -> (r: Vec<u8>)
        requires
            self.wf(),
            self.has_columns(column_idxes@),
            i < self.rows(),
        ensures
            r@ == row_bytes(
                if normal {
                    normal_row(self.row(column_idxes@, i as int))
                } else {
                    self.row(column_idxes@, i as int)
                },
            ),
    {
        let ghost row = self.row(column_idxes@, i as int);
        let ghost goal = if normal {
            normal_row(row)
        } else {
            row
        };
        let mut buf: Vec<u8> = Vec::new();
        let mut k: usize = 0;
        assert(goal.take(0) =~= Seq::empty());
        while k < column_idxes.len()
            invariant
                k <= column_idxes.len(),
                self.wf(),
                self.has_columns(column_idxes@),
                i < self.rows(),
                row == self.row(column_idxes@, i as int),
                goal == (if normal {
                    normal_row(row)
                } else {
                    row
                }),
                goal.len() == column_idxes@.len(),
                buf@ == row_bytes(goal.take(k as int)),
            decreases column_idxes.len() - k,
        {
            let idx: usize = column_idxes[k];
            assert(column_idxes@[k as int] < self.columns_view().len());
            let datum = self.columns[idx].datum_at(i);
            let datum = if normal {
                normalized_datum(datum)
            } else {
                datum
            };
            serialize_datum_into(&datum, &mut buf);
            proof {
                assert(row[k as int] == self.columns_view()[idx as int].datums()[i as int]);
                lemma_row_bytes_push(goal.take(k as int), goal[k as int]);
                assert(goal.take(k as int).push(goal[k as int]) =~= goal.take(k + 1));
            }
            k = k + 1;
        }
        assert(goal.take(goal.len() as int) =~= goal);
        buf
    }

    /// The number of bytes that the first row takes up, over the given columns. Zero where
    /// there is no row.
    pub fn estimate_value_encoding_size(&self, column_idxes: &[usize]) -> (n: usize)
        requires
            self.wf(),
            self.has_columns(column_idxes@),
        ensures
            n == (if self.rows() == 0 {
                0
            } else {
                row_bytes(self.row(column_idxes@, 0)).len()
            }),
    {
        if self.capacity == 0 {
            0
        } else {
            self.encode_row(column_idxes, 0, false).len()
        }
    }
}

} // verus!
