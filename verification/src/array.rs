//! Columns of values, builders that fill them, and chunks of columns.
use vstd::prelude::*;

use crate::decimal::Decimal;
use crate::float::{F32, F64};
use crate::hash_key_serde::{
    HashKeySerDe, Int256Ref, JsonbRef, ListRef, ScalarRef, StructRef,
};
use crate::scalar::{
    clone_bytes, clone_datums, datum_model, row_model, DataType, Datum, Int256, Scalar, ScalarImpl,
    Serial,
};
use crate::temporal::{Date, Time, Timestamp};

verus! {

/// What an item of a column stands for.
pub open spec fn item_model<D: ScalarRef>(item: Option<D>) -> Option<Scalar> {
    match item {
        None => None,
        Some(v) => Some(v.scalar()),
    }
}

/// A column of values or nulls.
pub trait Array {
    type RefItem<'a>: HashKeySerDe where Self: 'a;

    spec fn datums(&self) -> Seq<Option<Scalar>>;

    fn len(&self) -> (n: usize)
        ensures
            n == self.datums().len(),
    ;

    fn value_at<'a>(&'a self, idx: usize) -> (r: Option<Self::RefItem<'a>>)
        requires
            idx < self.datums().len(),
        ensures
            item_model(r) == self.datums()[idx as int],
    ;
}

/// Fills a column, one item after the other.
pub trait ArrayBuilder {
    type RefItem<'a>: HashKeySerDe;

    spec fn datums(&self) -> Seq<Option<Scalar>>;

    fn append<'a>(&mut self, value: Option<Self::RefItem<'a>>)
        ensures
            final(self).datums() == old(self).datums().push(item_model(value)),
    ;
}

/// A column of values of constant size.
#[derive(Debug, PartialEq)]
pub struct PrimitiveArray<T> {
    pub values: Vec<Option<T>>,
}

impl<T: HashKeySerDe + Copy + 'static> Array for PrimitiveArray<T> {
    type RefItem<'a> = T;

    open spec fn datums(&self) -> Seq<Option<Scalar>> {
        self.values@.map_values(|v: Option<T>| item_model(v))
    }

    fn len(&self) -> (n: usize) {
        self.values.len()
    }

    fn value_at<'a>(&'a self, idx: usize) -> (r: Option<T>) {
        self.values[idx]
    }
}

/// Fills a column of values of constant size.
#[derive(Debug)]
pub struct PrimitiveArrayBuilder<T> {
    pub values: Vec<Option<T>>,
}

impl<T: HashKeySerDe + Copy> ArrayBuilder for PrimitiveArrayBuilder<T> {
    type RefItem<'a> = T;

    open spec fn datums(&self) -> Seq<Option<Scalar>> {
        self.values@.map_values(|v: Option<T>| item_model(v))
    }

    fn append<'a>(&mut self, value: Option<T>) {
        self.values.push(value);
        assert(self.datums() =~= old(self).datums().push(item_model(value)));
    }
}

impl<T> PrimitiveArrayBuilder<T> {
    pub fn new(capacity: usize) -> (r: Self)
        ensures
            r.values@ == Seq::<Option<T>>::empty(),
    {
        PrimitiveArrayBuilder { values: Vec::with_capacity(capacity) }
    }

    pub fn finish(self) -> (r: PrimitiveArray<T>)
        ensures
            r.values == self.values,
    {
        PrimitiveArray { values: self.values }
    }
}


/// A column of strings.
#[derive(Debug, PartialEq)]
pub struct Utf8Array {
    pub values: Vec<Option<String>>,
}

impl Array for Utf8Array {
    type RefItem<'a> = &'a str;

    open spec fn datums(&self) -> Seq<Option<Scalar>> {
        self.values@.map_values(
            |item: Option<String>|
                match item {
                    None => None,
                    Some(v) => Some(Scalar::Utf8(v@)),
                },
        )
    }

    fn len(&self) -> (n: usize) {
        self.values.len()
    }

    fn value_at<'a>(&'a self, idx: usize) -> (r: Option<&'a str>) {
        match &self.values[idx] {
            None => None,
            Some(v) => {
                let item = v.as_str();
                assert(item.scalar() == Scalar::Utf8(v@));
                Some(item)
            },
        }
    }
}

/// Fills a column of strings.
#[derive(Debug)]
pub struct Utf8ArrayBuilder {
    pub values: Vec<Option<String>>,
}

impl ArrayBuilder for Utf8ArrayBuilder {
    type RefItem<'a> = &'a str;

    open spec fn datums(&self) -> Seq<Option<Scalar>> {
        self.values@.map_values(
            |item: Option<String>|
                match item {
                    None => None,
                    Some(v) => Some(Scalar::Utf8(v@)),
                },
        )
    }

    fn append<'a>(&mut self, value: Option<&'a str>) {
        let item: Option<String> = match value {
            None => None,
            Some(v) => Some(v.to_owned()),
        };
        self.values.push(item);
        assert(self.datums() =~= old(self).datums().push(item_model(value)));
    }
}

impl Utf8ArrayBuilder {
    pub fn new(capacity: usize) -> (r: Self)
        ensures
            r.values@ == Seq::<Option<String>>::empty(),
    {
        Utf8ArrayBuilder { values: Vec::with_capacity(capacity) }
    }

    pub fn finish(self) -> (r: Utf8Array)
        ensures
            r.values == self.values,
    {
        Utf8Array { values: self.values }
    }
}


/// A column of byte strings.
#[derive(Debug, PartialEq)]
pub struct ByteaArray {
    pub values: Vec<Option<Vec<u8>>>,
}

impl Array for ByteaArray {
    type RefItem<'a> = &'a [u8];

    open spec fn datums(&self) -> Seq<Option<Scalar>> {
        self.values@.map_values(
            |item: Option<Vec<u8>>|
                match item {
                    None => None,
                    Some(v) => Some(Scalar::Bytea(v@)),
                },
        )
    }

    fn len(&self) -> (n: usize) {
        self.values.len()
    }

    fn value_at<'a>(&'a self, idx: usize) -> (r: Option<&'a [u8]>) {
        match &self.values[idx] {
            None => None,
            Some(v) => {
                let item = v.as_slice();
                assert(item.scalar() == Scalar::Bytea(v@));
                Some(item)
            },
        }
    }
}

/// Fills a column of byte strings.
#[derive(Debug)]
pub struct ByteaArrayBuilder {
    pub values: Vec<Option<Vec<u8>>>,
}

impl ArrayBuilder for ByteaArrayBuilder {
    type RefItem<'a> = &'a [u8];

    open spec fn datums(&self) -> Seq<Option<Scalar>> {
        self.values@.map_values(
            |item: Option<Vec<u8>>|
                match item {
                    None => None,
                    Some(v) => Some(Scalar::Bytea(v@)),
                },
        )
    }

    fn append<'a>(&mut self, value: Option<&'a [u8]>) {
        let item: Option<Vec<u8>> = match value {
            None => None,
            Some(v) => Some(clone_bytes(v)),
        };
        self.values.push(item);
        assert(self.datums() =~= old(self).datums().push(item_model(value)));
    }
}

impl ByteaArrayBuilder {
    pub fn new(capacity: usize) -> (r: Self)
        ensures
            r.values@ == Seq::<Option<Vec<u8>>>::empty(),
    {
        ByteaArrayBuilder { values: Vec::with_capacity(capacity) }
    }

    pub fn finish(self) -> (r: ByteaArray)
        ensures
            r.values == self.values,
    {
        ByteaArray { values: self.values }
    }
}


/// A column of documents.
#[derive(Debug, PartialEq)]
pub struct JsonbArray {
    pub values: Vec<Option<Vec<u8>>>,
}

impl Array for JsonbArray {
    type RefItem<'a> = JsonbRef<'a>;

    open spec fn datums(&self) -> Seq<Option<Scalar>> {
        self.values@.map_values(
            |item: Option<Vec<u8>>|
                match item {
                    None => None,
                    Some(v) => Some(Scalar::Jsonb(v@)),
                },
        )
    }

    fn len(&self) -> (n: usize) {
        self.values.len()
    }

    fn value_at<'a>(&'a self, idx: usize) -> (r: Option<JsonbRef<'a>>) {
        match &self.values[idx] {
            None => None,
            Some(v) => {
                let item = JsonbRef { text: v };
                assert(item.scalar() == Scalar::Jsonb(v@));
                Some(item)
            },
        }
    }
}

/// Fills a column of documents.
#[derive(Debug)]
pub struct JsonbArrayBuilder {
    pub values: Vec<Option<Vec<u8>>>,
}

impl ArrayBuilder for JsonbArrayBuilder {
    type RefItem<'a> = JsonbRef<'a>;

    open spec fn datums(&self) -> Seq<Option<Scalar>> {
        self.values@.map_values(
            |item: Option<Vec<u8>>|
                match item {
                    None => None,
                    Some(v) => Some(Scalar::Jsonb(v@)),
                },
        )
    }

    fn append<'a>(&mut self, value: Option<JsonbRef<'a>>) {
        let item: Option<Vec<u8>> = match value {
            None => None,
            Some(v) => Some(clone_bytes(v.text.as_slice())),
        };
        self.values.push(item);
        assert(self.datums() =~= old(self).datums().push(item_model(value)));
    }
}

impl JsonbArrayBuilder {
    pub fn new(capacity: usize) -> (r: Self)
        ensures
            r.values@ == Seq::<Option<Vec<u8>>>::empty(),
    {
        JsonbArrayBuilder { values: Vec::with_capacity(capacity) }
    }

    pub fn finish(self) -> (r: JsonbArray)
        ensures
            r.values == self.values,
    {
        JsonbArray { values: self.values }
    }
}


/// A column of 256-bit integers.
#[derive(Debug, PartialEq)]
pub struct Int256Array {
    pub values: Vec<Option<Int256>>,
}

impl Array for Int256Array {
    type RefItem<'a> = Int256Ref<'a>;

    open spec fn datums(&self) -> Seq<Option<Scalar>> {
        self.values@.map_values(
            |item: Option<Int256>|
                match item {
                    None => None,
                    Some(v) => Some(Scalar::Int256(v.bytes@)),
                },
        )
    }

    fn len(&self) -> (n: usize) {
        self.values.len()
    }

    fn value_at<'a>(&'a self, idx: usize) -> (r: Option<Int256Ref<'a>>) {
        match &self.values[idx] {
            None => None,
            Some(v) => {
                let item = Int256Ref { value: v };
                assert(item.scalar() == Scalar::Int256(v.bytes@));
                Some(item)
            },
        }
    }
}

/// Fills a column of 256-bit integers.
#[derive(Debug)]
pub struct Int256ArrayBuilder {
    pub values: Vec<Option<Int256>>,
}

impl ArrayBuilder for Int256ArrayBuilder {
    type RefItem<'a> = Int256Ref<'a>;

    open spec fn datums(&self) -> Seq<Option<Scalar>> {
        self.values@.map_values(
            |item: Option<Int256>|
                match item {
                    None => None,
                    Some(v) => Some(Scalar::Int256(v.bytes@)),
                },
        )
    }

    fn append<'a>(&mut self, value: Option<Int256Ref<'a>>) {
        let item: Option<Int256> = match value {
            None => None,
            Some(v) => Some(*v.value),
        };
        self.values.push(item);
        assert(self.datums() =~= old(self).datums().push(item_model(value)));
    }
}

impl Int256ArrayBuilder {
    pub fn new(capacity: usize) -> (r: Self)
        ensures
            r.values@ == Seq::<Option<Int256>>::empty(),
    {
        Int256ArrayBuilder { values: Vec::with_capacity(capacity) }
    }

    pub fn finish(self) -> (r: Int256Array)
        ensures
            r.values == self.values,
    {
        Int256Array { values: self.values }
    }
}


/// A column of structs.
#[derive(Debug, PartialEq)]
pub struct StructArray {
    pub values: Vec<Option<Vec<Datum>>>,
}

impl Array for StructArray {
    type RefItem<'a> = StructRef<'a>;

    open spec fn datums(&self) -> Seq<Option<Scalar>> {
        self.values@.map_values(
            |item: Option<Vec<Datum>>|
                match item {
                    None => None,
                    Some(v) => Some(Scalar::Struct(row_model(v@))),
                },
        )
    }

    fn len(&self) -> (n: usize) {
        self.values.len()
    }

    fn value_at<'a>(&'a self, idx: usize) -> (r: Option<StructRef<'a>>) {
        match &self.values[idx] {
            None => None,
            Some(v) => {
                let item = StructRef { fields: v };
                assert(item.scalar() == Scalar::Struct(row_model(v@)));
                Some(item)
            },
        }
    }
}

/// Fills a column of structs.
#[derive(Debug)]
pub struct StructArrayBuilder {
    pub values: Vec<Option<Vec<Datum>>>,
}

impl ArrayBuilder for StructArrayBuilder {
    type RefItem<'a> = StructRef<'a>;

    open spec fn datums(&self) -> Seq<Option<Scalar>> {
        self.values@.map_values(
            |item: Option<Vec<Datum>>|
                match item {
                    None => None,
                    Some(v) => Some(Scalar::Struct(row_model(v@))),
                },
        )
    }

    fn append<'a>(&mut self, value: Option<StructRef<'a>>) {
        let item: Option<Vec<Datum>> = match value {
            None => None,
            Some(v) => Some(clone_datums(v.fields)),
        };
        self.values.push(item);
        assert(self.datums() =~= old(self).datums().push(item_model(value)));
    }
}

impl StructArrayBuilder {
    pub fn new(capacity: usize) -> (r: Self)
        ensures
            r.values@ == Seq::<Option<Vec<Datum>>>::empty(),
    {
        StructArrayBuilder { values: Vec::with_capacity(capacity) }
    }

    pub fn finish(self) -> (r: StructArray)
        ensures
            r.values == self.values,
    {
        StructArray { values: self.values }
    }
}


/// A column of lists.
#[derive(Debug, PartialEq)]
pub struct ListArray {
    pub values: Vec<Option<Vec<Datum>>>,
}

impl Array for ListArray {
    type RefItem<'a> = ListRef<'a>;

    open spec fn datums(&self) -> Seq<Option<Scalar>> {
        self.values@.map_values(
            |item: Option<Vec<Datum>>|
                match item {
                    None => None,
                    Some(v) => Some(Scalar::List(row_model(v@))),
                },
        )
    }

    fn len(&self) -> (n: usize) {
        self.values.len()
    }

    fn value_at<'a>(&'a self, idx: usize) -> (r: Option<ListRef<'a>>) {
        match &self.values[idx] {
            None => None,
            Some(v) => {
                let item = ListRef { values: v };
                assert(item.scalar() == Scalar::List(row_model(v@)));
                Some(item)
            },
        }
    }
}

/// Fills a column of lists.
#[derive(Debug)]
pub struct ListArrayBuilder {
    pub values: Vec<Option<Vec<Datum>>>,
}

impl ArrayBuilder for ListArrayBuilder {
    type RefItem<'a> = ListRef<'a>;

    open spec fn datums(&self) -> Seq<Option<Scalar>> {
        self.values@.map_values(
            |item: Option<Vec<Datum>>|
                match item {
                    None => None,
                    Some(v) => Some(Scalar::List(row_model(v@))),
                },
        )
    }

    fn append<'a>(&mut self, value: Option<ListRef<'a>>) {
        let item: Option<Vec<Datum>> = match value {
            None => None,
            Some(v) => Some(clone_datums(v.values)),
        };
        self.values.push(item);
        assert(self.datums() =~= old(self).datums().push(item_model(value)));
    }
}

impl ListArrayBuilder {
    pub fn new(capacity: usize) -> (r: Self)
        ensures
            r.values@ == Seq::<Option<Vec<Datum>>>::empty(),
    {
        ListArrayBuilder { values: Vec::with_capacity(capacity) }
    }

    pub fn finish(self) -> (r: ListArray)
        ensures
            r.values == self.values,
    {
        ListArray { values: self.values }
    }
}


pub type BoolArray = PrimitiveArray<bool>;

pub type I16Array = PrimitiveArray<i16>;

pub type I32Array = PrimitiveArray<i32>;

pub type I64Array = PrimitiveArray<i64>;

pub type F32Array = PrimitiveArray<F32>;

pub type F64Array = PrimitiveArray<F64>;

pub type DecimalArray = PrimitiveArray<Decimal>;

pub type DateArray = PrimitiveArray<Date>;

pub type TimeArray = PrimitiveArray<Time>;

pub type TimestampArray = PrimitiveArray<Timestamp>;

pub type SerialArray = PrimitiveArray<Serial>;

pub type I32ArrayBuilder = PrimitiveArrayBuilder<i32>;

/// A column of any type.
#[derive(Debug, PartialEq)]
pub enum ArrayImpl {
    Bool(PrimitiveArray<bool>),
    Int16(PrimitiveArray<i16>),
    Int32(PrimitiveArray<i32>),
    Int64(PrimitiveArray<i64>),
    Float32(PrimitiveArray<F32>),
    Float64(PrimitiveArray<F64>),
    Decimal(PrimitiveArray<Decimal>),
    Date(PrimitiveArray<Date>),
    Time(PrimitiveArray<Time>),
    Timestamp(PrimitiveArray<Timestamp>),
    Serial(PrimitiveArray<Serial>),
    Utf8(Utf8Array),
    Bytea(ByteaArray),
    Jsonb(JsonbArray),
    Int256(Int256Array),
    Struct(StructArray),
    List(ListArray),
}

/// Fills a column of any type.
#[derive(Debug)]
pub enum ArrayBuilderImpl {
    Bool(PrimitiveArrayBuilder<bool>),
    Int16(PrimitiveArrayBuilder<i16>),
    Int32(PrimitiveArrayBuilder<i32>),
    Int64(PrimitiveArrayBuilder<i64>),
    Float32(PrimitiveArrayBuilder<F32>),
    Float64(PrimitiveArrayBuilder<F64>),
    Decimal(PrimitiveArrayBuilder<Decimal>),
    Date(PrimitiveArrayBuilder<Date>),
    Time(PrimitiveArrayBuilder<Time>),
    Timestamp(PrimitiveArrayBuilder<Timestamp>),
    Serial(PrimitiveArrayBuilder<Serial>),
    Utf8(Utf8ArrayBuilder),
    Bytea(ByteaArrayBuilder),
    Jsonb(JsonbArrayBuilder),
    Int256(Int256ArrayBuilder),
    Struct(StructArrayBuilder),
    List(ListArrayBuilder),
}

impl ArrayImpl {
    pub open spec fn datums(&self) -> Seq<Option<Scalar>> {
        match self {
            ArrayImpl::Bool(inner) => inner.datums(),
            ArrayImpl::Int16(inner) => inner.datums(),
            ArrayImpl::Int32(inner) => inner.datums(),
            ArrayImpl::Int64(inner) => inner.datums(),
            ArrayImpl::Float32(inner) => inner.datums(),
            ArrayImpl::Float64(inner) => inner.datums(),
            ArrayImpl::Decimal(inner) => inner.datums(),
            ArrayImpl::Date(inner) => inner.datums(),
            ArrayImpl::Time(inner) => inner.datums(),
            ArrayImpl::Timestamp(inner) => inner.datums(),
            ArrayImpl::Serial(inner) => inner.datums(),
            ArrayImpl::Utf8(inner) => inner.datums(),
            ArrayImpl::Bytea(inner) => inner.datums(),
            ArrayImpl::Jsonb(inner) => inner.datums(),
            ArrayImpl::Int256(inner) => inner.datums(),
            ArrayImpl::Struct(inner) => inner.datums(),
            ArrayImpl::List(inner) => inner.datums(),
        }
    }

    pub fn len(&self) -> (n: usize)
        ensures
            n == self.datums().len(),
    {
        match self {
            ArrayImpl::Bool(inner) => inner.len(),
            ArrayImpl::Int16(inner) => inner.len(),
            ArrayImpl::Int32(inner) => inner.len(),
            ArrayImpl::Int64(inner) => inner.len(),
            ArrayImpl::Float32(inner) => inner.len(),
            ArrayImpl::Float64(inner) => inner.len(),
            ArrayImpl::Decimal(inner) => inner.len(),
            ArrayImpl::Date(inner) => inner.len(),
            ArrayImpl::Time(inner) => inner.len(),
            ArrayImpl::Timestamp(inner) => inner.len(),
            ArrayImpl::Serial(inner) => inner.len(),
            ArrayImpl::Utf8(inner) => inner.len(),
            ArrayImpl::Bytea(inner) => inner.len(),
            ArrayImpl::Jsonb(inner) => inner.len(),
            ArrayImpl::Int256(inner) => inner.len(),
            ArrayImpl::Struct(inner) => inner.len(),
            ArrayImpl::List(inner) => inner.len(),
        }
    }

    /// The datum of one row.
    pub fn datum_at(&self, idx: usize) -> (r: Datum)
        requires
            idx < self.datums().len(),
        ensures
            datum_model(r) == self.datums()[idx as int],
    {
        match self {
            ArrayImpl::Bool(inner) => owned_item(inner.value_at(idx)),
            ArrayImpl::Int16(inner) => owned_item(inner.value_at(idx)),
            ArrayImpl::Int32(inner) => owned_item(inner.value_at(idx)),
            ArrayImpl::Int64(inner) => owned_item(inner.value_at(idx)),
            ArrayImpl::Float32(inner) => owned_item(inner.value_at(idx)),
            ArrayImpl::Float64(inner) => owned_item(inner.value_at(idx)),
            ArrayImpl::Decimal(inner) => owned_item(inner.value_at(idx)),
            ArrayImpl::Date(inner) => owned_item(inner.value_at(idx)),
            ArrayImpl::Time(inner) => owned_item(inner.value_at(idx)),
            ArrayImpl::Timestamp(inner) => owned_item(inner.value_at(idx)),
            ArrayImpl::Serial(inner) => owned_item(inner.value_at(idx)),
            ArrayImpl::Utf8(inner) => owned_item(inner.value_at(idx)),
            ArrayImpl::Bytea(inner) => owned_item(inner.value_at(idx)),
            ArrayImpl::Jsonb(inner) => owned_item(inner.value_at(idx)),
            ArrayImpl::Int256(inner) => owned_item(inner.value_at(idx)),
            ArrayImpl::Struct(inner) => owned_item(inner.value_at(idx)),
            ArrayImpl::List(inner) => owned_item(inner.value_at(idx)),
        }
    }

    /// The datum of the only row.
    pub fn to_datum(&self) -> (r: Datum)
        requires
            self.datums().len() == 1,
        ensures
            datum_model(r) == self.datums()[0],
    {
        self.datum_at(0)
    }

    /// An empty builder for columns of the same type.
    pub fn create_builder(&self, capacity: usize) -> (r: ArrayBuilderImpl)
        ensures
            r.datums() == Seq::<Option<Scalar>>::empty(),
            r.builds(*self),
    {
        match self {
            ArrayImpl::Bool(_) => ArrayBuilderImpl::Bool(PrimitiveArrayBuilder::new(capacity)),
            ArrayImpl::Int16(_) => ArrayBuilderImpl::Int16(PrimitiveArrayBuilder::new(capacity)),
            ArrayImpl::Int32(_) => ArrayBuilderImpl::Int32(PrimitiveArrayBuilder::new(capacity)),
            ArrayImpl::Int64(_) => ArrayBuilderImpl::Int64(PrimitiveArrayBuilder::new(capacity)),
            ArrayImpl::Float32(_) => ArrayBuilderImpl::Float32(PrimitiveArrayBuilder::new(capacity)),
            ArrayImpl::Float64(_) => ArrayBuilderImpl::Float64(PrimitiveArrayBuilder::new(capacity)),
            ArrayImpl::Decimal(_) => ArrayBuilderImpl::Decimal(PrimitiveArrayBuilder::new(capacity)),
            ArrayImpl::Date(_) => ArrayBuilderImpl::Date(PrimitiveArrayBuilder::new(capacity)),
            ArrayImpl::Time(_) => ArrayBuilderImpl::Time(PrimitiveArrayBuilder::new(capacity)),
            ArrayImpl::Timestamp(_) => ArrayBuilderImpl::Timestamp(PrimitiveArrayBuilder::new(capacity)),
            ArrayImpl::Serial(_) => ArrayBuilderImpl::Serial(PrimitiveArrayBuilder::new(capacity)),
            ArrayImpl::Utf8(_) => ArrayBuilderImpl::Utf8(Utf8ArrayBuilder::new(capacity)),
            ArrayImpl::Bytea(_) => ArrayBuilderImpl::Bytea(ByteaArrayBuilder::new(capacity)),
            ArrayImpl::Jsonb(_) => ArrayBuilderImpl::Jsonb(JsonbArrayBuilder::new(capacity)),
            ArrayImpl::Int256(_) => ArrayBuilderImpl::Int256(Int256ArrayBuilder::new(capacity)),
            ArrayImpl::Struct(_) => ArrayBuilderImpl::Struct(StructArrayBuilder::new(capacity)),
            ArrayImpl::List(_) => ArrayBuilderImpl::List(ListArrayBuilder::new(capacity)),
        }
    }
}

/// The datum that an item stands for.
fn owned_item<D: ScalarRef>(item: Option<D>) -> (r: Datum)
    ensures
        datum_model(r) == item_model(item),
{
    match item {
        None => None,
        Some(v) => Some(v.to_owned_scalar()),
    }
}

impl ArrayBuilderImpl {
    /// The datums appended so far.
    pub open spec fn datums(&self) -> Seq<Option<Scalar>> {
        match self {
            ArrayBuilderImpl::Bool(inner) => inner.datums(),
            ArrayBuilderImpl::Int16(inner) => inner.datums(),
            ArrayBuilderImpl::Int32(inner) => inner.datums(),
            ArrayBuilderImpl::Int64(inner) => inner.datums(),
            ArrayBuilderImpl::Float32(inner) => inner.datums(),
            ArrayBuilderImpl::Float64(inner) => inner.datums(),
            ArrayBuilderImpl::Decimal(inner) => inner.datums(),
            ArrayBuilderImpl::Date(inner) => inner.datums(),
            ArrayBuilderImpl::Time(inner) => inner.datums(),
            ArrayBuilderImpl::Timestamp(inner) => inner.datums(),
            ArrayBuilderImpl::Serial(inner) => inner.datums(),
            ArrayBuilderImpl::Utf8(inner) => inner.datums(),
            ArrayBuilderImpl::Bytea(inner) => inner.datums(),
            ArrayBuilderImpl::Jsonb(inner) => inner.datums(),
            ArrayBuilderImpl::Int256(inner) => inner.datums(),
            ArrayBuilderImpl::Struct(inner) => inner.datums(),
            ArrayBuilderImpl::List(inner) => inner.datums(),
        }
    }

    /// The column type that is built, if its values go into keys of fixed size.
    pub open spec fn fixed_type(&self) -> Option<DataType> {
        match self {
            ArrayBuilderImpl::Bool(_) => Some(DataType::Boolean),
            ArrayBuilderImpl::Int16(_) => Some(DataType::Int16),
            ArrayBuilderImpl::Int32(_) => Some(DataType::Int32),
            ArrayBuilderImpl::Int64(_) => Some(DataType::Int64),
            ArrayBuilderImpl::Float32(_) => Some(DataType::Float32),
            ArrayBuilderImpl::Float64(_) => Some(DataType::Float64),
            ArrayBuilderImpl::Decimal(_) => Some(DataType::Decimal),
            ArrayBuilderImpl::Date(_) => Some(DataType::Date),
            ArrayBuilderImpl::Time(_) => Some(DataType::Time),
            ArrayBuilderImpl::Timestamp(_) => Some(DataType::Timestamp),
            ArrayBuilderImpl::Serial(_) => Some(DataType::Serial),
            _ => None,
        }
    }

    /// The builder takes the datum.
    pub open spec fn takes(&self, d: Option<Scalar>) -> bool {
        match d {
            None => true,
            Some(s) => match (self, s) {
                (ArrayBuilderImpl::Bool(_), Scalar::Bool(_)) => true,
                (ArrayBuilderImpl::Int16(_), Scalar::Int16(_)) => true,
                (ArrayBuilderImpl::Int32(_), Scalar::Int32(_)) => true,
                (ArrayBuilderImpl::Int64(_), Scalar::Int64(_)) => true,
                (ArrayBuilderImpl::Float32(_), Scalar::Float32(_)) => true,
                (ArrayBuilderImpl::Float64(_), Scalar::Float64(_)) => true,
                (ArrayBuilderImpl::Decimal(_), Scalar::Decimal(_)) => true,
                (ArrayBuilderImpl::Date(_), Scalar::Date(_)) => true,
                (ArrayBuilderImpl::Time(_), Scalar::Time(_)) => true,
                (ArrayBuilderImpl::Timestamp(_), Scalar::Timestamp(_)) => true,
                (ArrayBuilderImpl::Serial(_), Scalar::Serial(_)) => true,
                (ArrayBuilderImpl::Utf8(_), Scalar::Utf8(_)) => true,
                (ArrayBuilderImpl::Bytea(_), Scalar::Bytea(_)) => true,
                (ArrayBuilderImpl::Jsonb(_), Scalar::Jsonb(_)) => true,
                (ArrayBuilderImpl::Int256(_), Scalar::Int256(_)) => true,
                (ArrayBuilderImpl::Struct(_), Scalar::Struct(_)) => true,
                (ArrayBuilderImpl::List(_), Scalar::List(_)) => true,
                _ => false,
            },
        }
    }

    /// The builder is for columns of the type.
    pub open spec fn is_for(&self, ty: DataType) -> bool {
        match (self, ty) {
            (ArrayBuilderImpl::Bool(_), DataType::Boolean) => true,
            (ArrayBuilderImpl::Int16(_), DataType::Int16) => true,
            (ArrayBuilderImpl::Int32(_), DataType::Int32) => true,
            (ArrayBuilderImpl::Int64(_), DataType::Int64) => true,
            (ArrayBuilderImpl::Float32(_), DataType::Float32) => true,
            (ArrayBuilderImpl::Float64(_), DataType::Float64) => true,
            (ArrayBuilderImpl::Decimal(_), DataType::Decimal) => true,
            (ArrayBuilderImpl::Date(_), DataType::Date) => true,
            (ArrayBuilderImpl::Time(_), DataType::Time) => true,
            (ArrayBuilderImpl::Timestamp(_), DataType::Timestamp) => true,
            (ArrayBuilderImpl::Serial(_), DataType::Serial) => true,
            (ArrayBuilderImpl::Utf8(_), DataType::Varchar) => true,
            (ArrayBuilderImpl::Bytea(_), DataType::Bytea) => true,
            (ArrayBuilderImpl::Jsonb(_), DataType::Jsonb) => true,
            (ArrayBuilderImpl::Int256(_), DataType::Int256) => true,
            (ArrayBuilderImpl::Struct(_), DataType::Struct(_)) => true,
            (ArrayBuilderImpl::List(_), DataType::List(_)) => true,
            _ => false,
        }
    }

    /// The builder is for columns like `array`.
    pub open spec fn builds(&self, array: ArrayImpl) -> bool {
        match (self, array) {
            (ArrayBuilderImpl::Bool(_), ArrayImpl::Bool(_)) => true,
            (ArrayBuilderImpl::Int16(_), ArrayImpl::Int16(_)) => true,
            (ArrayBuilderImpl::Int32(_), ArrayImpl::Int32(_)) => true,
            (ArrayBuilderImpl::Int64(_), ArrayImpl::Int64(_)) => true,
            (ArrayBuilderImpl::Float32(_), ArrayImpl::Float32(_)) => true,
            (ArrayBuilderImpl::Float64(_), ArrayImpl::Float64(_)) => true,
            (ArrayBuilderImpl::Decimal(_), ArrayImpl::Decimal(_)) => true,
            (ArrayBuilderImpl::Date(_), ArrayImpl::Date(_)) => true,
            (ArrayBuilderImpl::Time(_), ArrayImpl::Time(_)) => true,
            (ArrayBuilderImpl::Timestamp(_), ArrayImpl::Timestamp(_)) => true,
            (ArrayBuilderImpl::Serial(_), ArrayImpl::Serial(_)) => true,
            (ArrayBuilderImpl::Utf8(_), ArrayImpl::Utf8(_)) => true,
            (ArrayBuilderImpl::Bytea(_), ArrayImpl::Bytea(_)) => true,
            (ArrayBuilderImpl::Jsonb(_), ArrayImpl::Jsonb(_)) => true,
            (ArrayBuilderImpl::Int256(_), ArrayImpl::Int256(_)) => true,
            (ArrayBuilderImpl::Struct(_), ArrayImpl::Struct(_)) => true,
            (ArrayBuilderImpl::List(_), ArrayImpl::List(_)) => true,
            _ => false,
        }
    }

    /// The two builders are for columns of the same type.
    pub open spec fn same_type(&self, other: Self) -> bool {
        match (self, other) {
            (ArrayBuilderImpl::Bool(_), ArrayBuilderImpl::Bool(_)) => true,
            (ArrayBuilderImpl::Int16(_), ArrayBuilderImpl::Int16(_)) => true,
            (ArrayBuilderImpl::Int32(_), ArrayBuilderImpl::Int32(_)) => true,
            (ArrayBuilderImpl::Int64(_), ArrayBuilderImpl::Int64(_)) => true,
            (ArrayBuilderImpl::Float32(_), ArrayBuilderImpl::Float32(_)) => true,
            (ArrayBuilderImpl::Float64(_), ArrayBuilderImpl::Float64(_)) => true,
            (ArrayBuilderImpl::Decimal(_), ArrayBuilderImpl::Decimal(_)) => true,
            (ArrayBuilderImpl::Date(_), ArrayBuilderImpl::Date(_)) => true,
            (ArrayBuilderImpl::Time(_), ArrayBuilderImpl::Time(_)) => true,
            (ArrayBuilderImpl::Timestamp(_), ArrayBuilderImpl::Timestamp(_)) => true,
            (ArrayBuilderImpl::Serial(_), ArrayBuilderImpl::Serial(_)) => true,
            (ArrayBuilderImpl::Utf8(_), ArrayBuilderImpl::Utf8(_)) => true,
            (ArrayBuilderImpl::Bytea(_), ArrayBuilderImpl::Bytea(_)) => true,
            (ArrayBuilderImpl::Jsonb(_), ArrayBuilderImpl::Jsonb(_)) => true,
            (ArrayBuilderImpl::Int256(_), ArrayBuilderImpl::Int256(_)) => true,
            (ArrayBuilderImpl::Struct(_), ArrayBuilderImpl::Struct(_)) => true,
            (ArrayBuilderImpl::List(_), ArrayBuilderImpl::List(_)) => true,
            _ => false,
        }
    }

    /// Appends a datum of the builder's type, or null.
    pub fn append_datum(&mut self, datum: &Datum)
        requires
            old(self).takes(datum_model(*datum)),
        ensures
            final(self).datums() == old(self).datums().push(datum_model(*datum)),
            final(self).same_type(*old(self)),
    {
        match datum {
            None => {
                self.append_null();
            },
            Some(s) => {
                match (self, s) {
                    (ArrayBuilderImpl::Bool(inner), ScalarImpl::Bool(v)) => {
                        inner.append(Some(*v));
                    },
                    (ArrayBuilderImpl::Int16(inner), ScalarImpl::Int16(v)) => {
                        inner.append(Some(*v));
                    },
                    (ArrayBuilderImpl::Int32(inner), ScalarImpl::Int32(v)) => {
                        inner.append(Some(*v));
                    },
                    (ArrayBuilderImpl::Int64(inner), ScalarImpl::Int64(v)) => {
                        inner.append(Some(*v));
                    },
                    (ArrayBuilderImpl::Float32(inner), ScalarImpl::Float32(v)) => {
                        inner.append(Some(*v));
                    },
                    (ArrayBuilderImpl::Float64(inner), ScalarImpl::Float64(v)) => {
                        inner.append(Some(*v));
                    },
                    (ArrayBuilderImpl::Decimal(inner), ScalarImpl::Decimal(v)) => {
                        inner.append(Some(*v));
                    },
                    (ArrayBuilderImpl::Date(inner), ScalarImpl::Date(v)) => {
                        inner.append(Some(*v));
                    },
                    (ArrayBuilderImpl::Time(inner), ScalarImpl::Time(v)) => {
                        inner.append(Some(*v));
                    },
                    (ArrayBuilderImpl::Timestamp(inner), ScalarImpl::Timestamp(v)) => {
                        inner.append(Some(*v));
                    },
                    (ArrayBuilderImpl::Serial(inner), ScalarImpl::Serial(v)) => {
                        inner.append(Some(*v));
                    },
                    (ArrayBuilderImpl::Utf8(inner), ScalarImpl::Utf8(v)) => {
                        inner.append(Some(v.as_str()));
                    },
                    (ArrayBuilderImpl::Bytea(inner), ScalarImpl::Bytea(v)) => {
                        inner.append(Some(v.as_slice()));
                    },
                    (ArrayBuilderImpl::Jsonb(inner), ScalarImpl::Jsonb(v)) => {
                        inner.append(Some(JsonbRef { text: v }));
                    },
                    (ArrayBuilderImpl::Int256(inner), ScalarImpl::Int256(v)) => {
                        inner.append(Some(Int256Ref { value: v }));
                    },
                    (ArrayBuilderImpl::Struct(inner), ScalarImpl::Struct(v)) => {
                        inner.append(Some(StructRef { fields: v }));
                    },
                    (ArrayBuilderImpl::List(inner), ScalarImpl::List(v)) => {
                        inner.append(Some(ListRef { values: v }));
                    },
                    _ => {},
                }
            },
        }
    }

    /// Appends null.
    pub fn append_null(&mut self)
        ensures
            final(self).datums() == old(self).datums().push(None),
            final(self).same_type(*old(self)),
    {
        match self {
            ArrayBuilderImpl::Bool(inner) => {
                inner.append(None);
            },
            ArrayBuilderImpl::Int16(inner) => {
                inner.append(None);
            },
            ArrayBuilderImpl::Int32(inner) => {
                inner.append(None);
            },
            ArrayBuilderImpl::Int64(inner) => {
                inner.append(None);
            },
            ArrayBuilderImpl::Float32(inner) => {
                inner.append(None);
            },
            ArrayBuilderImpl::Float64(inner) => {
                inner.append(None);
            },
            ArrayBuilderImpl::Decimal(inner) => {
                inner.append(None);
            },
            ArrayBuilderImpl::Date(inner) => {
                inner.append(None);
            },
            ArrayBuilderImpl::Time(inner) => {
                inner.append(None);
            },
            ArrayBuilderImpl::Timestamp(inner) => {
                inner.append(None);
            },
            ArrayBuilderImpl::Serial(inner) => {
                inner.append(None);
            },
            ArrayBuilderImpl::Utf8(inner) => {
                inner.append(None);
            },
            ArrayBuilderImpl::Bytea(inner) => {
                inner.append(None);
            },
            ArrayBuilderImpl::Jsonb(inner) => {
                inner.append(None);
            },
            ArrayBuilderImpl::Int256(inner) => {
                inner.append(None);
            },
            ArrayBuilderImpl::Struct(inner) => {
                inner.append(None);
            },
            ArrayBuilderImpl::List(inner) => {
                inner.append(None);
            },
        }
    }

    pub fn finish(self) -> (r: ArrayImpl)
        ensures
            r.datums() == self.datums(),
            self.builds(r),
    {
        match self {
            ArrayBuilderImpl::Bool(inner) => ArrayImpl::Bool(inner.finish()),
            ArrayBuilderImpl::Int16(inner) => ArrayImpl::Int16(inner.finish()),
            ArrayBuilderImpl::Int32(inner) => ArrayImpl::Int32(inner.finish()),
            ArrayBuilderImpl::Int64(inner) => ArrayImpl::Int64(inner.finish()),
            ArrayBuilderImpl::Float32(inner) => ArrayImpl::Float32(inner.finish()),
            ArrayBuilderImpl::Float64(inner) => ArrayImpl::Float64(inner.finish()),
            ArrayBuilderImpl::Decimal(inner) => ArrayImpl::Decimal(inner.finish()),
            ArrayBuilderImpl::Date(inner) => ArrayImpl::Date(inner.finish()),
            ArrayBuilderImpl::Time(inner) => ArrayImpl::Time(inner.finish()),
            ArrayBuilderImpl::Timestamp(inner) => ArrayImpl::Timestamp(inner.finish()),
            ArrayBuilderImpl::Serial(inner) => ArrayImpl::Serial(inner.finish()),
            ArrayBuilderImpl::Utf8(inner) => ArrayImpl::Utf8(inner.finish()),
            ArrayBuilderImpl::Bytea(inner) => ArrayImpl::Bytea(inner.finish()),
            ArrayBuilderImpl::Jsonb(inner) => ArrayImpl::Jsonb(inner.finish()),
            ArrayBuilderImpl::Int256(inner) => ArrayImpl::Int256(inner.finish()),
            ArrayBuilderImpl::Struct(inner) => ArrayImpl::Struct(inner.finish()),
            ArrayBuilderImpl::List(inner) => ArrayImpl::List(inner.finish()),
        }
    }
}

impl DataType {
    /// The type, if its values go into keys of fixed size.
    pub open spec fn as_fixed_type(&self) -> Option<DataType> {
        match self {
            DataType::Boolean => Some(DataType::Boolean),
            DataType::Int16 => Some(DataType::Int16),
            DataType::Int32 => Some(DataType::Int32),
            DataType::Int64 => Some(DataType::Int64),
            DataType::Float32 => Some(DataType::Float32),
            DataType::Float64 => Some(DataType::Float64),
            DataType::Decimal => Some(DataType::Decimal),
            DataType::Date => Some(DataType::Date),
            DataType::Time => Some(DataType::Time),
            DataType::Timestamp => Some(DataType::Timestamp),
            DataType::Serial => Some(DataType::Serial),
            _ => None,
        }
    }

    /// An empty builder for columns of the type.
    pub fn create_array_builder(&self, capacity: usize) -> (r: ArrayBuilderImpl)
        ensures
            r.datums() == Seq::<Option<Scalar>>::empty(),
            r.is_for(*self),
    {
        match self {
            DataType::Boolean => ArrayBuilderImpl::Bool(PrimitiveArrayBuilder::new(capacity)),
            DataType::Int16 => ArrayBuilderImpl::Int16(PrimitiveArrayBuilder::new(capacity)),
            DataType::Int32 => ArrayBuilderImpl::Int32(PrimitiveArrayBuilder::new(capacity)),
            DataType::Int64 => ArrayBuilderImpl::Int64(PrimitiveArrayBuilder::new(capacity)),
            DataType::Float32 => ArrayBuilderImpl::Float32(PrimitiveArrayBuilder::new(capacity)),
            DataType::Float64 => ArrayBuilderImpl::Float64(PrimitiveArrayBuilder::new(capacity)),
            DataType::Decimal => ArrayBuilderImpl::Decimal(PrimitiveArrayBuilder::new(capacity)),
            DataType::Date => ArrayBuilderImpl::Date(PrimitiveArrayBuilder::new(capacity)),
            DataType::Time => ArrayBuilderImpl::Time(PrimitiveArrayBuilder::new(capacity)),
            DataType::Timestamp => ArrayBuilderImpl::Timestamp(PrimitiveArrayBuilder::new(capacity)),
            DataType::Serial => ArrayBuilderImpl::Serial(PrimitiveArrayBuilder::new(capacity)),
            DataType::Varchar => ArrayBuilderImpl::Utf8(Utf8ArrayBuilder::new(capacity)),
            DataType::Bytea => ArrayBuilderImpl::Bytea(ByteaArrayBuilder::new(capacity)),
            DataType::Jsonb => ArrayBuilderImpl::Jsonb(JsonbArrayBuilder::new(capacity)),
            DataType::Int256 => ArrayBuilderImpl::Int256(Int256ArrayBuilder::new(capacity)),
            DataType::Struct(_) => ArrayBuilderImpl::Struct(StructArrayBuilder::new(capacity)),
            DataType::List(_) => ArrayBuilderImpl::List(ListArrayBuilder::new(capacity)),
        }
    }
}

} // verus!
