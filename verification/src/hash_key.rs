//! Hash keys: the values of some columns of a row, in a form that is quick to compare.
use vstd::prelude::*;
use vstd::std_specs::cmp::PartialEqSpec;

use crate::array::{item_model, Array, ArrayBuilder, ArrayBuilderImpl, ArrayImpl};
use crate::data_chunk::{row_hash, DataChunk};
use crate::hash_code::{PrecomputedHasher, XxHash64Builder, XxHash64HashCode};
use crate::hash_key_serde::{fixed_bytes, fixed_scalar, is_fixed_scalar, HashKeySerDe, KeyBytes};
use crate::null_bitmap::{EstimateSize, NullBitmap, StackNullBitmap, MAX_FIXED_KEY_COLUMNS};
use crate::scalar::{
    clone_bytes, datum_model, lemma_row_model_push, row_model, DataType, Datum, OwnedRow, Scalar,
};
use crate::value_encoding::{
    decode_datum, decode_row, deserialize_datum, lemma_row_bytes_push, plain_width, row_bytes,
    serialize_datum_into, RowDeserializer, ValueEncodingError,
};
use crate::wire::ByteCursor;

verus! {

/// Why a key could not be read.
#[derive(Clone, Copy, Debug, PartialEq, Eq, Structural)]
pub enum ArrayError {
    /// More columns were asked for than a key of fixed size takes.
    ColumnLimit,
    /// The bytes of the key denote no row of the given types.
    Internal(ValueEncodingError),
}

pub type ArrayResult<T> = Result<T, ArrayError>;

/// The columns of a row that are null.
pub open spec fn null_columns(row: Seq<Option<Scalar>>) -> Set<int> {
    Set::new(|i: int| 0 <= i < row.len() && row[i] is None)
}

/// The values of a row that are not null, one after the other, as a key of fixed size has them.
pub open spec fn fixed_data(row: Seq<Option<Scalar>>) -> Seq<u8>
    decreases row.len(),
{
    if row.len() == 0 {
        Seq::empty()
    } else {
        fixed_data(row.drop_last()) + match row.last() {
            None => Seq::empty(),
            Some(s) => fixed_bytes(s),
        }
    }
}

/// `data`, filled up with zeros to `n` bytes.
pub open spec fn padded(data: Seq<u8>, n: nat) -> Seq<u8> {
    data + Seq::new((n - data.len()) as nat, |i: int| 0u8)
}

/// A key of `n` bytes has room for the row.
pub open spec fn fits_fixed(row: Seq<Option<Scalar>>, n: nat) -> bool {
    &&& row.len() <= MAX_FIXED_KEY_COLUMNS
    &&& forall|i: int|
        0 <= i < row.len() && row[i] is Some ==> is_fixed_scalar(#[trigger] row[i]->0)
    &&& fixed_data(row).len() <= n
}

/// What comes of reading columns out of a key: the datums, in order, and the error that
/// stopped the reading, if one did.
pub type ReadColumns = (Seq<Option<Scalar>>, Option<ArrayError>);

/// The datum of one column, and the bytes of the columns behind it: `b` are the bytes from
/// this column on, `nulls` are the columns that are null. Nothing, where the bytes denote no
/// value of the type.
pub open spec fn read_fixed_column(
    b: Seq<u8>,
    nulls: Set<int>,
    ty: Option<DataType>,
    column: nat,
) -> Option<ArrayResult<(Option<Scalar>, Seq<u8>)>> {
    if column >= MAX_FIXED_KEY_COLUMNS {
        Some(Err(ArrayError::ColumnLimit))
    } else if nulls.contains(column as int) {
        Some(Ok((None, b)))
    } else {
        match ty {
            None => None,
            Some(ty) => {
                let n = plain_width(ty) as int;
                if b.len() < n {
                    None
                } else {
                    match fixed_scalar(b.take(n), ty) {
                        Ok(s) => Some(Ok((Some(s), b.skip(n)))),
                        Err(_) => None,
                    }
                }
            },
        }
    }
}

/// The columns of the given types from `column` on.
pub open spec fn read_fixed(
    b: Seq<u8>,
    nulls: Set<int>,
    tys: Seq<Option<DataType>>,
    column: nat,
) -> Option<ReadColumns>
    decreases tys.len(),
{
    if tys.len() == 0 {
        Some((Seq::empty(), None))
    } else {
        match read_fixed_column(b, nulls, tys[0], column) {
            None => None,
            Some(Err(e)) => Some((Seq::empty(), Some(e))),
            Some(Ok((d, rest))) => match read_fixed(rest, nulls, tys.drop_first(), column + 1) {
                None => None,
                Some((ds, e)) => Some((seq![d] + ds, e)),
            },
        }
    }
}

/// The columns that the bytes of a serialized key begin with.
pub open spec fn read_serialized(b: Seq<u8>, tys: Seq<DataType>) -> ReadColumns
    decreases tys.len(),
{
    if tys.len() == 0 {
        (Seq::empty(), None)
    } else {
        match decode_datum(b, tys[0]) {
            Err(e) => (Seq::empty(), Some(ArrayError::Internal(e))),
            Ok((d, rest)) => {
                let (ds, e) = read_serialized(rest, tys.drop_first());
                (seq![d] + ds, e)
            },
        }
    }
}

/// The types, as far as their values go into keys of fixed size.
pub open spec fn fixed_types(tys: Seq<DataType>) -> Seq<Option<DataType>> {
    tys.map_values(|ty: DataType| ty.as_fixed_type())
}

/// The column types of builders, where they go into keys of fixed size.
pub open spec fn builder_types(builders: Seq<ArrayBuilderImpl>) -> Seq<Option<DataType>> {
    builders.map_values(|b: ArrayBuilderImpl| b.fixed_type())
}

/// `after` are the builders `before`, with one datum of `row` appended to each of the first.
pub open spec fn appended(
    before: Seq<ArrayBuilderImpl>,
    after: Seq<ArrayBuilderImpl>,
    row: Seq<Option<Scalar>>,
) -> bool {
    &&& before.len() == after.len()
    &&& forall|i: int|
        #![trigger after[i]]
        0 <= i < after.len() ==> {
            &&& after[i].same_type(before[i])
            &&& after[i].datums() == (if i < row.len() {
                before[i].datums().push(row[i])
            } else {
                before[i].datums()
            })
        }
}

/// What a key is to its row.
pub trait KeyModel: Sized {
    /// The hash code.
    spec fn code(&self) -> u64;

    /// The key is the key of the row.
    spec fn encodes(&self, row: Seq<Option<Scalar>>) -> bool;
}

/// Builds the key of one row, column by column.
pub trait HashKeySerializer: Sized {
    type K: KeyModel;

    spec fn wf(&self) -> bool;

    /// The columns that were appended.
    spec fn row(&self) -> Seq<Option<Scalar>>;

    spec fn code(&self) -> u64;

    /// Keys of this kind can hold the row.
    spec fn accepts(row: Seq<Option<Scalar>>) -> bool;

    fn from_hash_code(hash_code: XxHash64HashCode, estimated_key_size: usize) -> (r: Self)
        ensures
            r.wf(),
            r.row() == Seq::<Option<Scalar>>::empty(),
            r.code() == hash_code.code(),
    ;

    fn append<D: HashKeySerDe>(&mut self, data: Option<D>)
        requires
            old(self).wf(),
            Self::accepts(old(self).row().push(item_model(data))),
        ensures
            final(self).wf(),
            final(self).row() == old(self).row().push(item_model(data)),
            final(self).code() == old(self).code(),
    ;

    fn into_hash_key(self) -> (r: Self::K)
        requires
            self.wf(),
        ensures
            r.encodes(self.row()),
            r.code() == self.code(),
    ;

    /// With a row, its first columns are accepted.
    proof fn accepts_law(row: Seq<Option<Scalar>>, n: int)
        requires
            Self::accepts(row),
            0 <= n <= row.len(),
        ensures
            Self::accepts(row.take(n)),
    ;
}

/// Reads a key, column by column.
pub trait HashKeyDeserializer: Sized {
    type K: KeyModel;

    spec fn wf(&self) -> bool;

    /// The bytes of the columns that were not read.
    spec fn remaining(&self) -> Seq<u8>;

    /// The columns that are null.
    spec fn nulls(&self) -> Set<int>;

    /// The number of columns that were read.
    spec fn column(&self) -> nat;

    /// The bytes of a key.
    spec fn key_data(hash_key: Self::K) -> Seq<u8>;

    /// The columns of a key that are null.
    spec fn key_nulls(hash_key: Self::K) -> Set<int>;

    fn from_hash_key(hash_key: Self::K) -> (r: Self)
        ensures
            r.wf(),
            r.remaining() == Self::key_data(hash_key),
            r.nulls() == Self::key_nulls(hash_key),
            r.column() == 0,
    ;

    fn deserialize<D: HashKeySerDe>(&mut self) -> (r: ArrayResult<Option<D>>)
        requires
            old(self).wf(),
            read_fixed_column(
                old(self).remaining(),
                old(self).nulls(),
                D::fixed_type(),
                old(self).column(),
            ) is Some,
        ensures
            final(self).wf(),
            final(self).nulls() == old(self).nulls(),
            match read_fixed_column(
                old(self).remaining(),
                old(self).nulls(),
                D::fixed_type(),
                old(self).column(),
            )->0 {
                Err(e) => {
                    &&& r == Err::<Option<D>, ArrayError>(e)
                    &&& final(self).remaining() == old(self).remaining()
                    &&& final(self).column() == old(self).column()
                },
                Ok((d, rest)) => {
                    &&& r matches Ok(v) && item_model(v) == d
                    &&& final(self).remaining() == rest
                    &&& final(self).column() == old(self).column() + 1
                },
            },
    ;
}

/// Appends each item of a column to the key of its row.
pub fn serialize_array_to_hash_key<A: Array, S: HashKeySerializer>(
    array: &A,
    serializers: &mut [S],
)
    requires
        old(serializers)@.len() == array.datums().len(),
        forall|i: int|
            #![trigger old(serializers)@[i]]
            0 <= i < old(serializers)@.len() ==> old(serializers)@[i].wf() && S::accepts(
                old(serializers)@[i].row().push(array.datums()[i]),
            ),
    ensures
        final(serializers)@.len() == old(serializers)@.len(),
        forall|i: int|
            #![trigger final(serializers)@[i]]
            0 <= i < final(serializers)@.len() ==> {
                &&& final(serializers)@[i].wf()
                &&& final(serializers)@[i].row() == old(serializers)@[i].row().push(
                    array.datums()[i],
                )
                &&& final(serializers)@[i].code() == old(serializers)@[i].code()
            },
{
    let mut i: usize = 0;
    let n: usize = array.len();
    while i < n
        invariant
            i <= n,
            n == array.datums().len(),
            old(serializers)@.len() == n,
            serializers@.len() == n,
            forall|j: int|
                #![trigger old(serializers)@[j]]
                0 <= j < n ==> old(serializers)@[j].wf() && S::accepts(
                    old(serializers)@[j].row().push(array.datums()[j]),
                ),
            forall|j: int|
                #![trigger serializers@[j]]
                0 <= j < i ==> {
                    &&& serializers@[j].wf()
                    &&& serializers@[j].row() == old(serializers)@[j].row().push(array.datums()[j])
                    &&& serializers@[j].code() == old(serializers)@[j].code()
                },
            forall|j: int|
                #![trigger serializers@[j]]
                i <= j < n ==> serializers@[j] == old(serializers)@[j],
        decreases n - i,
    {
        assert(serializers@[i as int] == old(serializers)@[i as int]);
        let item = array.value_at(i);
        serializers[i].append(item);
        i = i + 1;
    }
}

/// Reads one column of a key into the builder of the column.
pub fn deserialize_array_element_from_hash_key<'a, A: ArrayBuilder, S: HashKeyDeserializer>(
    builder: &mut A,
    deserializer: &mut S,
) -> (r: ArrayResult<()>)
    requires
        old(deserializer).wf(),
        read_fixed_column(
            old(deserializer).remaining(),
            old(deserializer).nulls(),
            <A::RefItem<'a> as HashKeySerDe>::fixed_type(),
            old(deserializer).column(),
        ) is Some,
    ensures
        final(deserializer).wf(),
        final(deserializer).nulls() == old(deserializer).nulls(),
        match read_fixed_column(
            old(deserializer).remaining(),
            old(deserializer).nulls(),
            <A::RefItem<'a> as HashKeySerDe>::fixed_type(),
            old(deserializer).column(),
        )->0 {
            Err(e) => {
                &&& r == Err::<(), ArrayError>(e)
                &&& *final(builder) == *old(builder)
                &&& final(deserializer).remaining() == old(deserializer).remaining()
                &&& final(deserializer).column() == old(deserializer).column()
            },
            Ok((d, rest)) => {
                &&& r == Ok::<(), ArrayError>(())
                &&& final(builder).datums() == old(builder).datums().push(d)
                &&& final(deserializer).remaining() == rest
                &&& final(deserializer).column() == old(deserializer).column() + 1
            },
        },
{
    let item: Option<A::RefItem<'a>> = match deserializer.deserialize::<A::RefItem<'a>>() {
        Ok(item) => item,
        Err(e) => {
            return Err(e);
        },
    };
    builder.append(item);
    Ok(())
}

impl ArrayImpl {
    /// Appends each datum of the column to the key of its row.
    pub fn serialize_to_hash_key<S: HashKeySerializer>(&self, serializers: &mut [S])
        requires
            old(serializers)@.len() == self.datums().len(),
            forall|i: int|
                #![trigger old(serializers)@[i]]
                0 <= i < old(serializers)@.len() ==> old(serializers)@[i].wf() && S::accepts(
                    old(serializers)@[i].row().push(self.datums()[i]),
                ),
        ensures
            final(serializers)@.len() == old(serializers)@.len(),
            forall|i: int|
                #![trigger final(serializers)@[i]]
                0 <= i < final(serializers)@.len() ==> {
                    &&& final(serializers)@[i].wf()
                    &&& final(serializers)@[i].row() == old(serializers)@[i].row().push(
                        self.datums()[i],
                    )
                    &&& final(serializers)@[i].code() == old(serializers)@[i].code()
                },
    {
        match self {
            ArrayImpl::Bool(inner) => {
                serialize_array_to_hash_key(inner, serializers);
            },
            ArrayImpl::Int16(inner) => {
                serialize_array_to_hash_key(inner, serializers);
            },
            ArrayImpl::Int32(inner) => {
                serialize_array_to_hash_key(inner, serializers);
            },
            ArrayImpl::Int64(inner) => {
                serialize_array_to_hash_key(inner, serializers);
            },
            ArrayImpl::Float32(inner) => {
                serialize_array_to_hash_key(inner, serializers);
            },
            ArrayImpl::Float64(inner) => {
                serialize_array_to_hash_key(inner, serializers);
            },
            ArrayImpl::Decimal(inner) => {
                serialize_array_to_hash_key(inner, serializers);
            },
            ArrayImpl::Date(inner) => {
                serialize_array_to_hash_key(inner, serializers);
            },
            ArrayImpl::Time(inner) => {
                serialize_array_to_hash_key(inner, serializers);
            },
            ArrayImpl::Timestamp(inner) => {
                serialize_array_to_hash_key(inner, serializers);
            },
            ArrayImpl::Serial(inner) => {
                serialize_array_to_hash_key(inner, serializers);
            },
            ArrayImpl::Utf8(inner) => {
                serialize_array_to_hash_key(inner, serializers);
            },
            ArrayImpl::Bytea(inner) => {
                serialize_array_to_hash_key(inner, serializers);
            },
            ArrayImpl::Jsonb(inner) => {
                serialize_array_to_hash_key(inner, serializers);
            },
            ArrayImpl::Int256(inner) => {
                serialize_array_to_hash_key(inner, serializers);
            },
            ArrayImpl::Struct(inner) => {
                serialize_array_to_hash_key(inner, serializers);
            },
            ArrayImpl::List(inner) => {
                serialize_array_to_hash_key(inner, serializers);
            },
        }
    }
}

impl ArrayBuilderImpl {
    /// Reads one column of a key, and appends the datum.
    pub fn deserialize_from_hash_key<S: HashKeyDeserializer>(&mut self, deserializer: &mut S) -> (r:
        ArrayResult<()>)
        requires
            old(deserializer).wf(),
            read_fixed_column(
                old(deserializer).remaining(),
                old(deserializer).nulls(),
                old(self).fixed_type(),
                old(deserializer).column(),
            ) is Some,
        ensures
            final(deserializer).wf(),
            final(deserializer).nulls() == old(deserializer).nulls(),
            final(self).same_type(*old(self)),
            match read_fixed_column(
                old(deserializer).remaining(),
                old(deserializer).nulls(),
                old(self).fixed_type(),
                old(deserializer).column(),
            )->0 {
                Err(e) => {
                    &&& r == Err::<(), ArrayError>(e)
                    &&& final(self).datums() == old(self).datums()
                    &&& final(deserializer).remaining() == old(deserializer).remaining()
                    &&& final(deserializer).column() == old(deserializer).column()
                },
                Ok((d, rest)) => {
                    &&& r == Ok::<(), ArrayError>(())
                    &&& final(self).datums() == old(self).datums().push(d)
                    &&& final(deserializer).remaining() == rest
                    &&& final(deserializer).column() == old(deserializer).column() + 1
                },
            },
    {
        match self {
            ArrayBuilderImpl::Bool(inner) => {
                deserialize_array_element_from_hash_key(inner, deserializer)
            },
            ArrayBuilderImpl::Int16(inner) => {
                deserialize_array_element_from_hash_key(inner, deserializer)
            },
            ArrayBuilderImpl::Int32(inner) => {
                deserialize_array_element_from_hash_key(inner, deserializer)
            },
            ArrayBuilderImpl::Int64(inner) => {
                deserialize_array_element_from_hash_key(inner, deserializer)
            },
            ArrayBuilderImpl::Float32(inner) => {
                deserialize_array_element_from_hash_key(inner, deserializer)
            },
            ArrayBuilderImpl::Float64(inner) => {
                deserialize_array_element_from_hash_key(inner, deserializer)
            },
            ArrayBuilderImpl::Decimal(inner) => {
                deserialize_array_element_from_hash_key(inner, deserializer)
            },
            ArrayBuilderImpl::Date(inner) => {
                deserialize_array_element_from_hash_key(inner, deserializer)
            },
            ArrayBuilderImpl::Time(inner) => {
                deserialize_array_element_from_hash_key(inner, deserializer)
            },
            ArrayBuilderImpl::Timestamp(inner) => {
                deserialize_array_element_from_hash_key(inner, deserializer)
            },
            ArrayBuilderImpl::Serial(inner) => {
                deserialize_array_element_from_hash_key(inner, deserializer)
            },
            ArrayBuilderImpl::Utf8(inner) => {
                deserialize_array_element_from_hash_key(inner, deserializer)
            },
            ArrayBuilderImpl::Bytea(inner) => {
                deserialize_array_element_from_hash_key(inner, deserializer)
            },
            ArrayBuilderImpl::Jsonb(inner) => {
                deserialize_array_element_from_hash_key(inner, deserializer)
            },
            ArrayBuilderImpl::Int256(inner) => {
                deserialize_array_element_from_hash_key(inner, deserializer)
            },
            ArrayBuilderImpl::Struct(inner) => {
                deserialize_array_element_from_hash_key(inner, deserializer)
            },
            ArrayBuilderImpl::List(inner) => {
                deserialize_array_element_from_hash_key(inner, deserializer)
            },
        }
    }
}

/// A key of at most `N` bytes, for columns whose values have a constant size.
#[derive(Debug)]
pub struct FixedSizeKey<const N: usize, B = StackNullBitmap> {
    key: [u8; N],
    hash_code: u64,
    null_bitmap: B,
}

/// A key of any size, for all other columns.
#[derive(Debug)]
pub struct SerializedKey<B = StackNullBitmap> {
    key: Vec<u8>,
    hash_code: u64,
    null_bitmap: B,
}

pub type Key8<B = StackNullBitmap> = FixedSizeKey<1, B>;

pub type Key16<B = StackNullBitmap> = FixedSizeKey<2, B>;

pub type Key32<B = StackNullBitmap> = FixedSizeKey<4, B>;

pub type Key64<B = StackNullBitmap> = FixedSizeKey<8, B>;

pub type Key128<B = StackNullBitmap> = FixedSizeKey<16, B>;

pub type Key256<B = StackNullBitmap> = FixedSizeKey<32, B>;

pub type KeySerialized<B = StackNullBitmap> = SerializedKey<B>;

/// The two byte strings are the same.
fn same_bytes(a: &[u8], b: &[u8]) -> (r: bool)
    ensures
        r == (a@ == b@),
{
    if a.len() != b.len() {
        return false;
    }
    let mut i: usize = 0;
    while i < a.len()
        invariant
            i <= a.len(),
            a.len() == b.len(),
            forall|j: int| 0 <= j < i ==> a@[j] == b@[j],
        decreases a.len() - i,
    {
        if a[i] != b[i] {
            return false;
        }
        i = i + 1;
    }
    assert(a@ =~= b@);
    true
}

impl<const N: usize, B: NullBitmap> FixedSizeKey<N, B> {
    /// The bytes of the key.
    pub closed spec fn data(&self) -> Seq<u8> {
        self.key@
    }

    /// The columns that are null.
    pub closed spec fn null_bits(&self) -> B {
        self.null_bitmap
    }
}

impl<B: NullBitmap> SerializedKey<B> {
    /// The bytes of the key.
    pub closed spec fn data(&self) -> Seq<u8> {
        self.key@
    }

    /// The columns that are null.
    pub closed spec fn null_bits(&self) -> B {
        self.null_bitmap
    }
}

impl<const N: usize, B: NullBitmap> KeyModel for FixedSizeKey<N, B> {
    closed spec fn code(&self) -> u64 {
        self.hash_code
    }

    open spec fn encodes(&self, row: Seq<Option<Scalar>>) -> bool {
        &&& fits_fixed(row, N as nat)
        &&& self.data() == padded(fixed_data(row), N as nat)
        &&& self.null_bits().bits() == null_columns(row)
        &&& self.null_bits().tight()
    }
}

impl<B: NullBitmap> KeyModel for SerializedKey<B> {
    closed spec fn code(&self) -> u64 {
        self.hash_code
    }

    open spec fn encodes(&self, row: Seq<Option<Scalar>>) -> bool {
        &&& self.data() == row_bytes(row)
        &&& self.null_bits().bits() == null_columns(row)
        &&& self.null_bits().tight()
    }
}

impl<const N: usize, B: NullBitmap> Clone for FixedSizeKey<N, B> {
    fn clone(&self) -> (r: Self)
        ensures
            r.data() == self.data(),
            r.code() == self.code(),
            r.null_bits().bits() == self.null_bits().bits(),
            r.null_bits().tight() == self.null_bits().tight(),
    {
        let null_bitmap = self.null_bitmap.clone();
        proof {
            B::clone_law(self.null_bitmap, null_bitmap);
        }
        FixedSizeKey { key: self.key, hash_code: self.hash_code, null_bitmap }
    }
}

impl<B: NullBitmap> Clone for SerializedKey<B> {
    fn clone(&self) -> (r: Self)
        ensures
            r.data() == self.data(),
            r.code() == self.code(),
            r.null_bits().bits() == self.null_bits().bits(),
            r.null_bits().tight() == self.null_bits().tight(),
    {
        let null_bitmap = self.null_bitmap.clone();
        proof {
            B::clone_law(self.null_bitmap, null_bitmap);
        }
        SerializedKey {
            key: clone_bytes(self.key.as_slice()),
            hash_code: self.hash_code,
            null_bitmap,
        }
    }
}

impl<const N: usize, B: NullBitmap> EstimateSize for FixedSizeKey<N, B> {
    open spec fn heap_size(&self) -> nat {
        self.null_bits().heap_size()
    }

    fn estimated_heap_size(&self) -> (n: usize) {
        self.null_bitmap.estimated_heap_size()
    }
}

impl<B: NullBitmap> EstimateSize for SerializedKey<B> {
    open spec fn heap_size(&self) -> nat {
        self.data().len() + self.null_bits().heap_size()
    }

    fn estimated_heap_size(&self) -> (n: usize) {
        self.key.len() + self.null_bitmap.estimated_heap_size()
    }
}

/// Null equals null: keys are equal where their values are, and where their nulls are.
impl<const N: usize, B: NullBitmap> PartialEq for FixedSizeKey<N, B> {
    fn eq(&self, other: &Self) -> (r: bool) {
        proof {
            B::equality_law(self.null_bitmap, other.null_bitmap);
        }
        same_bytes(self.key.as_slice(), other.key.as_slice()) && self.null_bitmap
            == other.null_bitmap
    }
}

impl<const N: usize, B: NullBitmap> vstd::std_specs::cmp::PartialEqSpecImpl for FixedSizeKey<N, B> {
    open spec fn obeys_eq_spec() -> bool {
        true
    }

    open spec fn eq_spec(&self, other: &Self) -> bool {
        self.data() == other.data() && self.null_bits().eq_spec(&other.null_bits())
    }
}

impl<const N: usize, B: NullBitmap> Eq for FixedSizeKey<N, B> {

}

impl<B: NullBitmap> Eq for SerializedKey<B> {

}

impl<B: NullBitmap> PartialEq for SerializedKey<B> {
    fn eq(&self, other: &Self) -> (r: bool) {
        same_bytes(self.key.as_slice(), other.key.as_slice())
    }
}

impl<B: NullBitmap> vstd::std_specs::cmp::PartialEqSpecImpl for SerializedKey<B> {
    open spec fn obeys_eq_spec() -> bool {
        true
    }

    open spec fn eq_spec(&self, other: &Self) -> bool {
        self.data() == other.data()
    }
}

/// Builds a [`FixedSizeKey`].
pub struct FixedSizeKeySerializer<const N: usize, B: NullBitmap> {
    buffer: [u8; N],
    null_bitmap: B,
    null_bitmap_idx: usize,
    data_len: usize,
    hash_code: u64,
    appended: Ghost<Seq<Option<Scalar>>>,
}

impl<const N: usize, B: NullBitmap> FixedSizeKeySerializer<N, B> {
    /// The number of bytes that are free.
    pub fn left_size(&self) -> (n: usize)
        requires
            self.wf(),
        ensures
            n == N - fixed_data(self.row()).len(),
    {
        N - self.data_len
    }

    /// What was appended fits into the key.
    pub proof fn appended_row_fits(&self)
        requires
            self.wf(),
        ensures
            fits_fixed(self.row(), N as nat),
    {
    }
}

proof fn lemma_null_columns_push(row: Seq<Option<Scalar>>, d: Option<Scalar>)
    ensures
        null_columns(row.push(d)) == (if d is None {
            null_columns(row).insert(row.len() as int)
        } else {
            null_columns(row)
        }),
{
    let want = if d is None {
        null_columns(row).insert(row.len() as int)
    } else {
        null_columns(row)
    };
    assert(null_columns(row.push(d)) =~= want);
}

impl<const N: usize, B: NullBitmap> HashKeySerializer for FixedSizeKeySerializer<N, B> {
    type K = FixedSizeKey<N, B>;

    closed spec fn wf(&self) -> bool {
        &&& fits_fixed(self.row(), N as nat)
        &&& self.buffer@ == padded(fixed_data(self.row()), N as nat)
        &&& self.data_len == fixed_data(self.row()).len()
        &&& self.null_bitmap_idx == self.row().len()
        &&& self.null_bitmap.bits() == null_columns(self.row())
        &&& self.null_bitmap.tight()
    }

    closed spec fn row(&self) -> Seq<Option<Scalar>> {
        self.appended@
    }

    closed spec fn code(&self) -> u64 {
        self.hash_code
    }

    open spec fn accepts(row: Seq<Option<Scalar>>) -> bool {
        fits_fixed(row, N as nat)
    }

    /// The size of the key is fixed, so the estimate is not needed.
    fn from_hash_code(hash_code: XxHash64HashCode, _estimated_key_size: usize) -> (r: Self) {
        let r = FixedSizeKeySerializer {
            buffer: [0u8;N],
            null_bitmap: B::empty(),
            null_bitmap_idx: 0,
            data_len: 0,
            hash_code: hash_code.value(),
            appended: Ghost(Seq::empty()),
        };
        assert(r.buffer@ =~= padded(fixed_data(r.row()), N as nat));
        assert(null_columns(r.row()) =~= Set::<int>::empty());
        r
    }

    fn append<D: HashKeySerDe>(&mut self, data: Option<D>) {
        let ghost before = self.row();
        let ghost after = before.push(item_model(data));
        proof {
            B::room_law();
            lemma_null_columns_push(before, item_model(data));
            assert(after.drop_last() =~= before);
            assert(B::can_hold(self.null_bitmap_idx as int));
            assert(after[before.len() as int] == item_model(data));
        }
        match data {
            Some(v) => {
                proof {
                    v.width_law();
                    assert(is_fixed_scalar(after[before.len() as int]->0));
                }
                let ghost scalar = v.scalar();
                let data = v.serialize();
                let ret = data.as_bytes();
                let ghost start = self.buffer@;
                let n: usize = self.data_len;
                let mut i: usize = 0;
                while i < ret.len()
                    invariant
                        i <= ret.len(),
                        n + ret.len() <= N,
                        self.data_len == n,
                        self.null_bitmap == old(self).null_bitmap,
                        self.null_bitmap_idx == old(self).null_bitmap_idx,
                        self.hash_code == old(self).hash_code,
                        self.appended == old(self).appended,
                        self.buffer@.len() == N,
                        start.len() == N,
                        forall|j: int|
                            0 <= j < N ==> #[trigger] self.buffer@[j] == (if n <= j < n + i {
                                ret@[j - n]
                            } else {
                                start[j]
                            }),
                    decreases ret.len() - i,
                {
                    self.buffer[n + i] = ret[i];
                    i = i + 1;
                }
                self.data_len = n + ret.len();
                assert(fixed_data(after) =~= fixed_data(before) + fixed_bytes(scalar));
                assert(self.buffer@ =~= padded(fixed_data(after), N as nat));
            },
            None => {
                self.null_bitmap.set_true(self.null_bitmap_idx);
                assert(fixed_data(after) =~= fixed_data(before));
            },
        }
        self.null_bitmap_idx = self.null_bitmap_idx + 1;
        self.appended = Ghost(after);
    }

    fn into_hash_key(self) -> (r: Self::K) {
        FixedSizeKey {
            hash_code: self.hash_code,
            key: self.buffer,
            null_bitmap: self.null_bitmap,
        }
    }

    proof fn accepts_law(row: Seq<Option<Scalar>>, n: int)
        decreases row.len() - n,
    {
        if n == row.len() {
            assert(row.take(n) =~= row);
        } else {
            Self::accepts_law(row, n + 1);
            let longer = row.take(n + 1);
            assert(longer.drop_last() =~= row.take(n));
            assert forall|i: int| 0 <= i < n && row.take(n)[i] is Some implies is_fixed_scalar(
                #[trigger] row.take(n)[i]->0,
            ) by {
                assert(longer[i] == row.take(n)[i]);
            }
        }
    }
}

/// Reads a [`FixedSizeKey`].
pub struct FixedSizeKeyDeserializer<const N: usize, B: NullBitmap> {
    cursor: ByteCursor,
    null_bitmap: B,
    null_bitmap_idx: usize,
}

impl<const N: usize, B: NullBitmap> HashKeyDeserializer for FixedSizeKeyDeserializer<N, B> {
    type K = FixedSizeKey<N, B>;

    closed spec fn wf(&self) -> bool {
        self.cursor.wf()
    }

    closed spec fn remaining(&self) -> Seq<u8> {
        self.cursor.remaining()
    }

    closed spec fn nulls(&self) -> Set<int> {
        self.null_bitmap.bits()
    }

    closed spec fn column(&self) -> nat {
        self.null_bitmap_idx as nat
    }

    open spec fn key_data(hash_key: FixedSizeKey<N, B>) -> Seq<u8> {
        hash_key.data()
    }

    open spec fn key_nulls(hash_key: FixedSizeKey<N, B>) -> Set<int> {
        hash_key.null_bits().bits()
    }

    fn from_hash_key(hash_key: Self::K) -> (r: Self) {
        FixedSizeKeyDeserializer {
            cursor: ByteCursor::new(clone_bytes(hash_key.key.as_slice())),
            null_bitmap: hash_key.null_bitmap,
            null_bitmap_idx: 0,
        }
    }

    fn deserialize<D: HashKeySerDe>(&mut self) -> (r: ArrayResult<Option<D>>) {
        if self.null_bitmap_idx >= MAX_FIXED_KEY_COLUMNS {
            return Err(ArrayError::ColumnLimit);
        }
        proof {
            B::room_law();
            assert(B::can_hold(self.null_bitmap_idx as int));
        }
        let is_null = self.null_bitmap.contains(self.null_bitmap_idx);
        self.null_bitmap_idx = self.null_bitmap_idx + 1;
        if is_null {
            Ok(None)
        } else {
            let value = D::deserialize(&mut self.cursor);
            Ok(Some(value))
        }
    }
}

/// Builds a [`SerializedKey`].
pub struct SerializedKeySerializer<B: NullBitmap> {
    buffer: Vec<u8>,
    hash_code: u64,
    null_bitmap: B,
    null_bitmap_idx: usize,
    appended: Ghost<Seq<Option<Scalar>>>,
}

impl<B: NullBitmap> HashKeySerializer for SerializedKeySerializer<B> {
    type K = SerializedKey<B>;

    closed spec fn wf(&self) -> bool {
        &&& self.buffer@ == row_bytes(self.row())
        &&& self.null_bitmap_idx == self.row().len()
        &&& self.null_bitmap.bits() == null_columns(self.row())
        &&& self.null_bitmap.tight()
    }

    closed spec fn row(&self) -> Seq<Option<Scalar>> {
        self.appended@
    }

    closed spec fn code(&self) -> u64 {
        self.hash_code
    }

    /// The bitmap has room for the columns that are null.
    open spec fn accepts(row: Seq<Option<Scalar>>) -> bool {
        &&& row.len() <= usize::MAX
        &&& forall|i: int| 0 <= i < row.len() && (#[trigger] row[i]) is None ==> B::can_hold(i)
    }

    fn from_hash_code(hash_code: XxHash64HashCode, estimated_value_encoding_size: usize) -> (r: Self) {
        let r = SerializedKeySerializer {
            buffer: Vec::with_capacity(estimated_value_encoding_size),
            hash_code: hash_code.value(),
            null_bitmap: B::empty(),
            null_bitmap_idx: 0,
            appended: Ghost(Seq::empty()),
        };
        assert(null_columns(r.row()) =~= Set::<int>::empty());
        r
    }

    fn append<D: HashKeySerDe>(&mut self, data: Option<D>) {
        let ghost before = self.row();
        let ghost after = before.push(item_model(data));
        proof {
            lemma_null_columns_push(before, item_model(data));
            lemma_row_bytes_push(before, item_model(data));
            assert(after[before.len() as int] == item_model(data));
        }
        match data {
            Some(v) => {
                let datum: Datum = Some(v.to_owned_scalar());
                serialize_datum_into(&datum, &mut self.buffer);
            },
            None => {
                let datum: Datum = None;
                serialize_datum_into(&datum, &mut self.buffer);
                self.null_bitmap.set_true(self.null_bitmap_idx);
            },
        }
        self.null_bitmap_idx = self.null_bitmap_idx + 1;
        self.appended = Ghost(after);
    }

    fn into_hash_key(self) -> (r: Self::K) {
        SerializedKey {
            key: self.buffer,
            hash_code: self.hash_code,
            null_bitmap: self.null_bitmap,
        }
    }

    proof fn accepts_law(row: Seq<Option<Scalar>>, n: int) {
        assert forall|i: int| 0 <= i < n && (#[trigger] row.take(n)[i]) is None implies B::can_hold(
            i,
        ) by {
            assert(row[i] is None);
        }
    }
}

/// The different kinds of hash keys.
///
/// Comparing keys treats null as equal to null. That is what grouping needs. Where null must
/// not equal null, as in joins, the caller takes care of it.
pub trait HashKey: KeyModel + EstimateSize + Clone + Eq {
    type Bitmap: NullBitmap;

    type S: HashKeySerializer<K = Self>;

    /// The columns that are null.
    spec fn bitmap(&self) -> Self::Bitmap;

    /// What reading the key as columns of the given types gives. Nothing, where the key was
    /// not built of such columns and cannot be read.
    spec fn reads(&self, tys: Seq<DataType>) -> Option<ReadColumns>;

    /// What reading the key into the builders gives.
    spec fn reads_into(
        &self,
        builders: Seq<ArrayBuilderImpl>,
        tys: Seq<DataType>,
    ) -> Option<ReadColumns>;

    /// The keys of all rows, over the given columns.
    fn build(column_idxes: &[usize], data_chunk: &DataChunk) -> (r: ArrayResult<Vec<Self>>)
        requires
            data_chunk.wf(),
            data_chunk.has_columns(column_idxes@),
            forall|i: int|
                0 <= i < data_chunk.rows() ==> Self::S::accepts(
                    #[trigger] data_chunk.row(column_idxes@, i),
                ),
        ensures
            r matches Ok(keys) && {
                &&& keys@.len() == data_chunk.rows()
                &&& forall|i: int|
                    #![trigger keys@[i]]
                    0 <= i < keys@.len() ==> {
                        &&& keys@[i].encodes(data_chunk.row(column_idxes@, i))
                        &&& keys@[i].code() == row_hash(data_chunk.row(column_idxes@, i))
                    }
            },
    {
        let hash_codes = data_chunk.get_hash_values(column_idxes, XxHash64Builder);
        let ghost codes = hash_codes@;
        let keys = Self::build_from_hash_code(column_idxes, data_chunk, hash_codes);
        proof {
            assert forall|i: int| #![trigger keys@[i]] 0 <= i < keys@.len() implies {
                &&& keys@[i].encodes(data_chunk.row(column_idxes@, i))
                &&& keys@[i].code() == row_hash(data_chunk.row(column_idxes@, i))
            } by {
                assert(codes[i].code() == row_hash(data_chunk.row(column_idxes@, i)));
            }
        }
        Ok(keys)
    }

    /// The keys of all rows, over the given columns, with hash codes that were computed before.
    fn build_from_hash_code(
        column_idxes: &[usize],
        data_chunk: &DataChunk,
        hash_codes: Vec<XxHash64HashCode>,
    ) -> (r: Vec<Self>)
        requires
            data_chunk.wf(),
            data_chunk.has_columns(column_idxes@),
            column_idxes@.len() > 0 ==> hash_codes@.len() == data_chunk.rows(),
            forall|i: int|
                0 <= i < hash_codes@.len() ==> Self::S::accepts(
                    #[trigger] data_chunk.row(column_idxes@, i),
                ),
        ensures
            r@.len() == hash_codes@.len(),
            forall|i: int|
                #![trigger r@[i]]
                0 <= i < r@.len() ==> {
                    &&& r@[i].encodes(data_chunk.row(column_idxes@, i))
                    &&& r@[i].code() == hash_codes@[i].code()
                },
    {
        let estimated_key_size: usize = data_chunk.estimate_value_encoding_size(column_idxes);
        let mut serializers: Vec<Self::S> = Vec::new();
        let mut i: usize = 0;
        while i < hash_codes.len()
            invariant
                i <= hash_codes.len(),
                serializers@.len() == i,
                forall|j: int|
                    #![trigger serializers@[j]]
                    0 <= j < i ==> {
                        &&& serializers@[j].wf()
                        &&& serializers@[j].row() == Seq::<Option<Scalar>>::empty()
                        &&& serializers@[j].code() == hash_codes@[j].code()
                    },
            decreases hash_codes.len() - i,
        {
            serializers.push(Self::S::from_hash_code(hash_codes[i], estimated_key_size));
            i = i + 1;
        }
        let mut k: usize = 0;
        assert forall|j: int| #![trigger serializers@[j]] 0 <= j
            < serializers@.len() implies serializers@[j].row() == data_chunk.row(
            column_idxes@,
            j,
        ).take(0) by {
            assert(data_chunk.row(column_idxes@, j).take(0) =~= Seq::<Option<Scalar>>::empty());
        }
        while k < column_idxes.len()
            invariant
                k <= column_idxes.len(),
                data_chunk.wf(),
                data_chunk.has_columns(column_idxes@),
                column_idxes@.len() > 0 ==> hash_codes@.len() == data_chunk.rows(),
                forall|i: int|
                    0 <= i < hash_codes@.len() ==> Self::S::accepts(
                        #[trigger] data_chunk.row(column_idxes@, i),
                    ),
                serializers@.len() == hash_codes@.len(),
                forall|j: int|
                    #![trigger serializers@[j]]
                    0 <= j < serializers@.len() ==> {
                        &&& serializers@[j].wf()
                        &&& serializers@[j].row() == data_chunk.row(column_idxes@, j).take(k as int)
                        &&& serializers@[j].code() == hash_codes@[j].code()
                    },
            decreases column_idxes.len() - k,
        {
            let idx: usize = column_idxes[k];
            assert(column_idxes@[k as int] < data_chunk.columns_view().len());
            let column = data_chunk.column_at(idx);
            let ghost before = serializers@;
            proof {
                assert(data_chunk.columns_view()[idx as int].datums().len() == data_chunk.rows());
                assert forall|j: int| #![trigger before[j]] 0 <= j
                    < before.len() implies before[j].wf() && Self::S::accepts(
                    before[j].row().push(column.datums()[j]),
                ) && before[j].row().push(column.datums()[j]) == data_chunk.row(
                    column_idxes@,
                    j,
                ).take(k + 1) by {
                    let row = data_chunk.row(column_idxes@, j);
                    Self::S::accepts_law(row, k + 1);
                    assert(row.take(k as int).push(column.datums()[j]) =~= row.take(k + 1));
                }
            }
            column.serialize_to_hash_key(serializers.as_mut_slice());
            proof {
                assert forall|j: int| #![trigger serializers@[j]] 0 <= j
                    < serializers@.len() implies {
                    &&& serializers@[j].wf()
                    &&& serializers@[j].row() == data_chunk.row(column_idxes@, j).take(k + 1)
                    &&& serializers@[j].code() == hash_codes@[j].code()
                } by {
                    assert(before[j].wf());
                }
            }
            k = k + 1;
        }
        let ghost done = serializers@;
        let mut keys: Vec<Self> = Vec::new();
        for serializer in iter: serializers
            invariant
                iter.seq() == done,
                keys@.len() == iter.index(),
                forall|j: int|
                    #![trigger done[j]]
                    0 <= j < done.len() ==> {
                        &&& done[j].wf()
                        &&& done[j].row() == data_chunk.row(column_idxes@, j).take(
                            column_idxes@.len() as int,
                        )
                        &&& done[j].code() == hash_codes@[j].code()
                    },
                forall|j: int|
                    #![trigger keys@[j]]
                    0 <= j < keys@.len() ==> {
                        &&& keys@[j].encodes(data_chunk.row(column_idxes@, j))
                        &&& keys@[j].code() == hash_codes@[j].code()
                    },
        {
            proof {
                let j = keys@.len() as int;
                assert(done[j] == serializer);
                let row = data_chunk.row(column_idxes@, j);
                assert(row.take(column_idxes@.len() as int) =~= row);
            }
            keys.push(serializer.into_hash_key());
        }
        keys
    }

    /// The row of the key, as columns of the given types.
    fn deserialize(&self, data_types: &[DataType]) -> (r: ArrayResult<OwnedRow>)
        requires
            self.reads(data_types@) is Some,
        ensures
            match self.reads(data_types@)->0 {
                (row, None) => r matches Ok(out) && out@ == row,
                (_, Some(e)) => r == Err::<OwnedRow, ArrayError>(e),
            },
    ;

    /// Appends the row of the key to the builders, one column to each. Where that fails, the
    /// columns before the failure have been appended.
    fn deserialize_to_builders(
        &self,
        array_builders: &mut [ArrayBuilderImpl],
        data_types: &[DataType],
    ) -> (r: ArrayResult<()>)
        requires
            self.reads_into(old(array_builders)@, data_types@) is Some,
        ensures
            appended(
                old(array_builders)@,
                final(array_builders)@,
                (self.reads_into(old(array_builders)@, data_types@)->0).0,
            ),
            match (self.reads_into(old(array_builders)@, data_types@)->0).1 {
                None => r == Ok::<(), ArrayError>(()),
                Some(e) => r == Err::<(), ArrayError>(e),
            },
    ;

    fn null_bitmap(&self) -> (r: &Self::Bitmap)
        ensures
            *r == self.bitmap(),
    ;

    /// Writes the hash code of the key.
    fn hash(&self, state: &mut PrecomputedHasher)
        requires
            old(state).code() == 0,
        ensures
            final(state).code() == self.code(),
    ;

    /// Whether a column of the key is null.
    fn has_null(&self) -> (r: bool)
        ensures
            r == !self.bitmap().reports_empty(),
            self.bitmap().tight() ==> (r <==> self.bitmap().bits() != Set::<int>::empty()),
    {
        proof {
            Self::Bitmap::emptiness_law(self.bitmap());
        }
        !self.null_bitmap().is_empty()
    }
}

/// What `more` comes to, with the columns in front that were read before.
spec fn read_after(done: Seq<Option<Scalar>>, more: ReadColumns) -> ReadColumns {
    (done + more.0, more.1)
}

proof fn lemma_read_after_step(done: Seq<Option<Scalar>>, d: Option<Scalar>, more: ReadColumns)
    ensures
        read_after(done.push(d), more) == read_after(done, (seq![d] + more.0, more.1)),
{
    assert(done.push(d) + more.0 =~= done + (seq![d] + more.0));
}

impl<const N: usize, B: NullBitmap> HashKey for FixedSizeKey<N, B> {
    type Bitmap = B;

    type S = FixedSizeKeySerializer<N, B>;

    open spec fn bitmap(&self) -> B {
        self.null_bits()
    }

    open spec fn reads(&self, tys: Seq<DataType>) -> Option<ReadColumns> {
        read_fixed(self.data(), self.null_bits().bits(), fixed_types(tys), 0)
    }

    /// The columns have the types of the builders.
    open spec fn reads_into(
        &self,
        builders: Seq<ArrayBuilderImpl>,
        tys: Seq<DataType>,
    ) -> Option<ReadColumns> {
        read_fixed(self.data(), self.null_bits().bits(), builder_types(builders), 0)
    }

    fn deserialize(&self, data_types: &[DataType]) -> (r: ArrayResult<OwnedRow>) {
        let mut builders: Vec<ArrayBuilderImpl> = Vec::new();
        let mut i: usize = 0;
        while i < data_types.len()
            invariant
                i <= data_types.len(),
                builders@.len() == i,
                forall|j: int|
                    #![trigger builders@[j]]
                    0 <= j < i ==> builders@[j].is_for(data_types@[j]) && builders@[j].datums()
                        == Seq::<Option<Scalar>>::empty(),
            decreases data_types.len() - i,
        {
            builders.push(data_types[i].create_array_builder(1));
            i = i + 1;
        }
        let ghost start = builders@;
        proof {
            assert(builder_types(start) =~= fixed_types(data_types@)) by {
                assert forall|j: int| 0 <= j < start.len() implies builder_types(start)[j]
                    == fixed_types(data_types@)[j] by {
                    assert(start[j].is_for(data_types@[j]));
                }
            }
            lemma_read_fixed_len(self.data(), self.null_bits().bits(), builder_types(start), 0);
        }
        match self.deserialize_to_builders(builders.as_mut_slice(), data_types) {
            Ok(_) => {},
            Err(e) => {
                return Err(e);
            },
        }
        let ghost row = (self.reads(data_types@)->0).0;
        let ghost done = builders@;
        let mut datums: Vec<Datum> = Vec::new();
        proof {
            assert(row.take(0) =~= row_model(datums@));
            assert forall|j: int| #![trigger done[j]] 0 <= j < done.len() implies done[j].datums()
                == seq![row[j]] by {
                assert(start[j].datums() == Seq::<Option<Scalar>>::empty());
                assert(Seq::<Option<Scalar>>::empty().push(row[j]) =~= seq![row[j]]);
            }
        }
        for builder in iter: builders
            invariant
                iter.seq() == done,
                done.len() == row.len(),
                datums@.len() == iter.index(),
                row_model(datums@) == row.take(iter.index()),
                forall|j: int|
                    #![trigger done[j]]
                    0 <= j < done.len() ==> done[j].datums() == seq![row[j]],
        {
            let ghost before = datums@;
            assert(done[before.len() as int] == builder);
            let datum = builder.finish().to_datum();
            datums.push(datum);
            proof {
                lemma_row_model_push(before, datum);
                assert(row.take(before.len() as int).push(row[before.len() as int]) =~= row.take(
                    (before.len() + 1) as int,
                ));
            }
        }
        assert(row.take(row.len() as int) =~= row);
        Ok(OwnedRow::new(datums))
    }

    fn deserialize_to_builders(
        &self,
        array_builders: &mut [ArrayBuilderImpl],
        _data_types: &[DataType],
    ) -> (r: ArrayResult<()>) {
        let ghost start = array_builders@;
        let ghost tys = builder_types(start);
        let ghost nulls = self.null_bits().bits();
        let ghost want = read_fixed(self.data(), nulls, tys, 0);
        let mut deserializer = FixedSizeKeyDeserializer::<N, B>::from_hash_key(self.clone());
        let ghost mut done = Seq::<Option<Scalar>>::empty();
        let mut i: usize = 0;
        proof {
            assert(tys.skip(0) =~= tys);
            let more = want->0;
            assert(Seq::<Option<Scalar>>::empty() + more.0 =~= more.0);
        }
        while i < array_builders.len()
            invariant
                i <= array_builders@.len(),
                start == old(array_builders)@,
                start.len() == array_builders@.len(),
                tys == builder_types(start),
                nulls == self.null_bits().bits(),
                want == read_fixed(self.data(), nulls, tys, 0),
                want is Some,
                deserializer.wf(),
                deserializer.nulls() == nulls,
                deserializer.column() == i,
                done.len() == i,
                appended(start, array_builders@, done),
                forall|j: int|
                    #![trigger array_builders@[j]]
                    i <= j < start.len() ==> array_builders@[j] == start[j],
                read_fixed(deserializer.remaining(), nulls, tys.skip(i as int), i as nat) matches Some(
                    more,
                ) && want == Some(read_after(done, more)),
            decreases array_builders@.len() - i,
        {
            let ghost before = array_builders@;
            let ghost rest = deserializer.remaining();
            proof {
                assert(before[i as int] == start[i as int]);
                assert(tys.skip(i as int)[0] == start[i as int].fixed_type());
                assert(tys.skip(i as int).drop_first() =~= tys.skip(i + 1));
            }
            match array_builders[i].deserialize_from_hash_key(&mut deserializer) {
                Ok(_) => {},
                Err(e) => {
                    proof {
                        assert(done + Seq::<Option<Scalar>>::empty() =~= done);
                        assert forall|j: int| #![trigger array_builders@[j]] 0 <= j
                            < start.len() implies {
                            &&& array_builders@[j].same_type(start[j])
                            &&& array_builders@[j].datums() == (if j < done.len() {
                                start[j].datums().push(done[j])
                            } else {
                                start[j].datums()
                            })
                        } by {
                            assert(before[j].same_type(start[j]));
                        }
                    }
                    return Err(e);
                },
            }
            proof {
                let d = array_builders@[i as int].datums().last();
                let more = read_fixed(
                    deserializer.remaining(),
                    nulls,
                    tys.skip(i + 1),
                    (i + 1) as nat,
                )->0;
                lemma_read_after_step(done, d, more);
                let longer = done.push(d);
                assert forall|j: int| #![trigger array_builders@[j]] 0 <= j < start.len() implies {
                    &&& array_builders@[j].same_type(start[j])
                    &&& array_builders@[j].datums() == (if j < longer.len() {
                        start[j].datums().push(longer[j])
                    } else {
                        start[j].datums()
                    })
                } by {
                    assert(before[j].same_type(start[j]));
                }
                done = longer;
            }
            i = i + 1;
        }
        proof {
            assert(done + Seq::<Option<Scalar>>::empty() =~= done);
        }
        Ok(())
    }

    fn null_bitmap(&self) -> (r: &B) {
        &self.null_bitmap
    }

    fn hash(&self, state: &mut PrecomputedHasher) {
        state.write_u64(self.hash_code);
    }
}

proof fn lemma_read_fixed_len(
    b: Seq<u8>,
    nulls: Set<int>,
    tys: Seq<Option<DataType>>,
    column: nat,
)
    ensures
        read_fixed(b, nulls, tys, column) matches Some((row, e)) ==> row.len() <= tys.len() && (
        e is None ==> row.len() == tys.len()),
    decreases tys.len(),
{
    if tys.len() > 0 {
        if let Some(Ok((d, rest))) = read_fixed_column(b, nulls, tys[0], column) {
            lemma_read_fixed_len(rest, nulls, tys.drop_first(), column + 1);
        }
    }
}

/// Reading datums one by one comes to the same as reading the row.
proof fn lemma_read_serialized(b: Seq<u8>, tys: Seq<DataType>)
    ensures
        match decode_row(b, tys) {
            Ok((row, _)) => read_serialized(b, tys) == (row, None::<ArrayError>),
            Err(e) => read_serialized(b, tys).1 == Some(ArrayError::Internal(e)),
        },
    decreases tys.len(),
{
    if tys.len() > 0 {
        if let Ok((d, rest)) = decode_datum(b, tys[0]) {
            lemma_read_serialized(rest, tys.drop_first());
        }
    }
}

impl<B: NullBitmap> HashKey for SerializedKey<B> {
    type Bitmap = B;

    type S = SerializedKeySerializer<B>;

    open spec fn bitmap(&self) -> B {
        self.null_bits()
    }

    open spec fn reads(&self, tys: Seq<DataType>) -> Option<ReadColumns> {
        Some(read_serialized(self.data(), tys))
    }

    /// There is a builder for each of the types, and each takes its datum.
    open spec fn reads_into(
        &self,
        builders: Seq<ArrayBuilderImpl>,
        tys: Seq<DataType>,
    ) -> Option<ReadColumns> {
        let row = read_serialized(self.data(), tys).0;
        if builders.len() == tys.len() && forall|i: int|
            0 <= i < row.len() && i < builders.len() ==> (#[trigger] builders[i]).takes(row[i]) {
            Some(read_serialized(self.data(), tys))
        } else {
            None
        }
    }

    fn deserialize(&self, data_types: &[DataType]) -> (r: ArrayResult<OwnedRow>) {
        proof {
            lemma_read_serialized(self.data(), data_types@);
        }
        match RowDeserializer::new(data_types).deserialize(self.key.as_slice()) {
            Ok(row) => Ok(row),
            Err(e) => Err(ArrayError::Internal(e)),
        }
    }

    fn deserialize_to_builders(
        &self,
        array_builders: &mut [ArrayBuilderImpl],
        data_types: &[DataType],
    ) -> (r: ArrayResult<()>) {
        let ghost start = array_builders@;
        let ghost tys = data_types@;
        let ghost want = read_serialized(self.data(), tys);
        let mut source = ByteCursor::new(clone_bytes(self.key.as_slice()));
        let ghost mut done = Seq::<Option<Scalar>>::empty();
        let mut i: usize = 0;
        proof {
            assert(tys.skip(0) =~= tys);
            assert(Seq::<Option<Scalar>>::empty() + want.0 =~= want.0);
        }
        while i < array_builders.len()
            invariant
                i <= array_builders@.len(),
                start == old(array_builders)@,
                start.len() == array_builders@.len(),
                start.len() == tys.len(),
                tys == data_types@,
                want == read_serialized(self.data(), tys),
                forall|j: int|
                    0 <= j < want.0.len() && j < start.len() ==> (#[trigger] start[j]).takes(
                        want.0[j],
                    ),
                self.reads_into(start, tys) == Some(want),
                source.wf(),
                done.len() == i,
                appended(start, array_builders@, done),
                forall|j: int|
                    #![trigger array_builders@[j]]
                    i <= j < start.len() ==> array_builders@[j] == start[j],
                want == read_after(done, read_serialized(source.remaining(), tys.skip(i as int))),
            decreases array_builders@.len() - i,
        {
            let ghost before = array_builders@;
            let ghost more = read_serialized(source.remaining(), tys.skip(i as int));
            proof {
                assert(before[i as int] == start[i as int]);
                assert(tys.skip(i as int)[0] == tys[i as int]);
                assert(tys.skip(i as int).drop_first() =~= tys.skip(i + 1));
            }
            let datum: Datum = match deserialize_datum(&mut source, &data_types[i]) {
                Ok(datum) => datum,
                Err(e) => {
                    proof {
                        assert(done + Seq::<Option<Scalar>>::empty() =~= done);
                    }
                    return Err(ArrayError::Internal(e));
                },
            };
            proof {
                let d = datum_model(datum);
                let rest = read_serialized(source.remaining(), tys.skip(i + 1));
                lemma_read_after_step(done, d, rest);
                assert(want.0[i as int] == d) by {
                    assert(want.0 =~= done.push(d) + rest.0);
                }
                assert(start[i as int].takes(d));
            }
            array_builders[i].append_datum(&datum);
            proof {
                let longer = done.push(datum_model(datum));
                assert forall|j: int| #![trigger array_builders@[j]] 0 <= j < start.len() implies {
                    &&& array_builders@[j].same_type(start[j])
                    &&& array_builders@[j].datums() == (if j < longer.len() {
                        start[j].datums().push(longer[j])
                    } else {
                        start[j].datums()
                    })
                } by {
                    assert(before[j].same_type(start[j]));
                }
                done = longer;
            }
            i = i + 1;
        }
        proof {
            assert(done + Seq::<Option<Scalar>>::empty() =~= done);
        }
        Ok(())
    }

    fn null_bitmap(&self) -> (r: &B) {
        &self.null_bitmap
    }

    fn hash(&self, state: &mut PrecomputedHasher) {
        state.write_u64(self.hash_code);
    }
}

} // verus!
