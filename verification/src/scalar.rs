//! Column types and the values of columns.
use vstd::prelude::*;

use crate::decimal::Decimal;
use crate::float::{F32, F64};
use crate::temporal::{Date, Time, Timestamp};

verus! {

/// The type of a column.
#[derive(Debug, PartialEq, Eq, Hash)]
pub enum DataType {
    Boolean,
    Int16,
    Int32,
    Int64,
    Float32,
    Float64,
    Decimal,
    Date,
    Varchar,
    Time,
    Timestamp,
    Bytea,
    Jsonb,
    Serial,
    Int256,
    Struct(Vec<DataType>),
    List(Box<DataType>),
}

/// A row identifier.
#[derive(Clone, Copy, Debug, PartialEq, Eq, Hash, Structural)]
pub struct Serial {
    pub id: i64,
}

impl Serial {
    pub fn into_inner(self) -> (r: i64)
        ensures
            r == self.id,
    {
        self.id
    }
}

/// A 256-bit integer, as its bytes with the lowest first.
#[derive(Clone, Copy, Debug, PartialEq, Eq, Hash)]
pub struct Int256 {
    pub bytes: [u8; 32],
}

/// A value of some column type that is not null.
#[derive(Debug, PartialEq, Eq, Hash)]
pub enum ScalarImpl {
    Bool(bool),
    Int16(i16),
    Int32(i32),
    Int64(i64),
    Float32(F32),
    Float64(F64),
    Decimal(Decimal),
    Date(Date),
    Utf8(String),
    Time(Time),
    Timestamp(Timestamp),
    Bytea(Vec<u8>),
    /// A document, as the bytes of its text.
    Jsonb(Vec<u8>),
    Serial(Serial),
    Int256(Int256),
    Struct(Vec<Datum>),
    List(Vec<Datum>),
}

/// The value of a column in a row, or null.
pub type Datum = Option<ScalarImpl>;

/// What a [`ScalarImpl`] stands for.
pub enum Scalar {
    Bool(bool),
    Int16(i16),
    Int32(i32),
    Int64(i64),
    Float32(F32),
    Float64(F64),
    Decimal(Decimal),
    Date(Date),
    Utf8(Seq<char>),
    Time(Time),
    Timestamp(Timestamp),
    Bytea(Seq<u8>),
    Jsonb(Seq<u8>),
    Serial(Serial),
    Int256(Seq<u8>),
    Struct(Seq<Option<Scalar>>),
    List(Seq<Option<Scalar>>),
}

impl ScalarImpl {
    pub open spec fn model(&self) -> Scalar
        decreases self,
    {
        match self {
            ScalarImpl::Bool(v) => Scalar::Bool(*v),
            ScalarImpl::Int16(v) => Scalar::Int16(*v),
            ScalarImpl::Int32(v) => Scalar::Int32(*v),
            ScalarImpl::Int64(v) => Scalar::Int64(*v),
            ScalarImpl::Float32(v) => Scalar::Float32(*v),
            ScalarImpl::Float64(v) => Scalar::Float64(*v),
            ScalarImpl::Decimal(v) => Scalar::Decimal(*v),
            ScalarImpl::Date(v) => Scalar::Date(*v),
            ScalarImpl::Utf8(v) => Scalar::Utf8(v@),
            ScalarImpl::Time(v) => Scalar::Time(*v),
            ScalarImpl::Timestamp(v) => Scalar::Timestamp(*v),
            ScalarImpl::Bytea(v) => Scalar::Bytea(v@),
            ScalarImpl::Jsonb(v) => Scalar::Jsonb(v@),
            ScalarImpl::Serial(v) => Scalar::Serial(*v),
            ScalarImpl::Int256(v) => Scalar::Int256(v.bytes@),
            ScalarImpl::Struct(v) => Scalar::Struct(row_model(v@)),
            ScalarImpl::List(v) => Scalar::List(row_model(v@)),
        }
    }
}

/// What a datum stands for.
pub open spec fn datum_model(d: Datum) -> Option<Scalar> {
    match d {
        None => None,
        Some(s) => Some(s.model()),
    }
}

/// What a row of datums stands for.
pub open spec fn row_model(s: Seq<Datum>) -> Seq<Option<Scalar>>
    decreases s,
{
    if s.len() == 0 {
        Seq::empty()
    } else {
        row_model(s.drop_last()).push(
            match s.last() {
                None => None,
                Some(x) => Some(x.model()),
            },
        )
    }
}

pub broadcast proof fn lemma_row_model_len(s: Seq<Datum>)
    ensures
        #[trigger] row_model(s).len() == s.len(),
    decreases s.len(),
{
    if s.len() > 0 {
        lemma_row_model_len(s.drop_last());
    }
}

pub broadcast proof fn lemma_row_model_index(s: Seq<Datum>, i: int)
    requires
        0 <= i < s.len(),
    ensures
        #[trigger] row_model(s)[i] == datum_model(s[i]),
    decreases s.len(),
{
    lemma_row_model_len(s.drop_last());
    if i < s.len() - 1 {
        lemma_row_model_index(s.drop_last(), i);
    }
}

pub proof fn lemma_row_model_push(s: Seq<Datum>, d: Datum)
    ensures
        row_model(s.push(d)) == row_model(s).push(datum_model(d)),
{
    assert(s.push(d).drop_last() =~= s);
}

/// Clones a row.
pub fn clone_datums(row: &Vec<Datum>) -> (r: Vec<Datum>)
    ensures
        row_model(r@) == row_model(row@),
    decreases row,
{
    let mut r: Vec<Datum> = Vec::new();
    let mut i: usize = 0;
    assert(row@.take(0) =~= r@);
    while i < row.len()
        invariant
            i <= row.len(),
            row_model(r@) == row_model(row@.take(i as int)),
        decreases row.len() - i,
    {
        let ghost before = r@;
        proof {
            assert(decreases_to!(row => row@[i as int]));
        }
        let d: Datum = match &row[i] {
            None => None,
            Some(s) => Some(s.clone()),
        };
        r.push(d);
        proof {
            lemma_row_model_push(before, d);
            lemma_row_model_push(row@.take(i as int), row@[i as int]);
            assert(row@.take(i as int).push(row@[i as int]) =~= row@.take(i + 1));
        }
        i = i + 1;
    }
    assert(row@.take(row@.len() as int) =~= row@);
    r
}

/// Clones a byte string.
pub fn clone_bytes(bytes: &[u8]) -> (r: Vec<u8>)
    ensures
        r@ == bytes@,
{
    let mut r: Vec<u8> = Vec::new();
    let mut i: usize = 0;
    while i < bytes.len()
        invariant
            i <= bytes.len(),
            r@ =~= bytes@.take(i as int),
        decreases bytes.len() - i,
    {
        r.push(bytes[i]);
        i = i + 1;
    }
    assert(bytes@.take(bytes@.len() as int) =~= bytes@);
    r
}

impl Clone for ScalarImpl {
    fn clone(&self) -> (r: Self)
        ensures
            r.model() == self.model(),
        decreases self,
    {
        match self {
            ScalarImpl::Bool(v) => ScalarImpl::Bool(*v),
            ScalarImpl::Int16(v) => ScalarImpl::Int16(*v),
            ScalarImpl::Int32(v) => ScalarImpl::Int32(*v),
            ScalarImpl::Int64(v) => ScalarImpl::Int64(*v),
            ScalarImpl::Float32(v) => ScalarImpl::Float32(*v),
            ScalarImpl::Float64(v) => ScalarImpl::Float64(*v),
            ScalarImpl::Decimal(v) => ScalarImpl::Decimal(*v),
            ScalarImpl::Date(v) => ScalarImpl::Date(*v),
            ScalarImpl::Utf8(v) => ScalarImpl::Utf8(v.as_str().to_owned()),
            ScalarImpl::Time(v) => ScalarImpl::Time(*v),
            ScalarImpl::Timestamp(v) => ScalarImpl::Timestamp(*v),
            ScalarImpl::Bytea(v) => ScalarImpl::Bytea(clone_bytes(v.as_slice())),
            ScalarImpl::Jsonb(v) => ScalarImpl::Jsonb(clone_bytes(v.as_slice())),
            ScalarImpl::Serial(v) => ScalarImpl::Serial(*v),
            ScalarImpl::Int256(v) => ScalarImpl::Int256(*v),
            ScalarImpl::Struct(v) => ScalarImpl::Struct(clone_datums(v)),
            ScalarImpl::List(v) => ScalarImpl::List(clone_datums(v)),
        }
    }
}

/// `d` is null or a value of the type `ty`, within the limits of its parts: decimals, dates
/// and times in range, and lengths that fit into 32 bits.
pub open spec fn typed(d: Option<Scalar>, ty: DataType) -> bool
    decreases ty,
{
    match d {
        None => true,
        Some(s) => match (s, ty) {
            (Scalar::Bool(_), DataType::Boolean) => true,
            (Scalar::Int16(_), DataType::Int16) => true,
            (Scalar::Int32(_), DataType::Int32) => true,
            (Scalar::Int64(_), DataType::Int64) => true,
            (Scalar::Float32(_), DataType::Float32) => true,
            (Scalar::Float64(_), DataType::Float64) => true,
            (Scalar::Decimal(v), DataType::Decimal) => v.wf(),
            (Scalar::Date(v), DataType::Date) => v.wf(),
            (Scalar::Utf8(v), DataType::Varchar) => vstd::utf8::encode_utf8(v).len() <= u32::MAX,
            (Scalar::Time(v), DataType::Time) => v.wf(),
            (Scalar::Timestamp(v), DataType::Timestamp) => v.wf(),
            (Scalar::Bytea(v), DataType::Bytea) => v.len() <= u32::MAX,
            (Scalar::Jsonb(v), DataType::Jsonb) => v.len() <= u32::MAX,
            (Scalar::Serial(_), DataType::Serial) => true,
            (Scalar::Int256(v), DataType::Int256) => v.len() == 32,
            (Scalar::Struct(vs), DataType::Struct(tys)) => {
                &&& vs.len() == tys@.len()
                &&& forall|i: int|
                    #![trigger vs[i]]
                    0 <= i < vs.len() ==> typed(vs[i], tys@[i])
            },
            (Scalar::List(vs), DataType::List(t)) => {
                &&& vs.len() <= u32::MAX
                &&& forall|i: int| #![trigger vs[i]] 0 <= i < vs.len() ==> typed(vs[i], *t)
            },
            _ => false,
        },
    }
}

/// `row` holds one datum of each of the types, in order.
pub open spec fn row_typed(row: Seq<Option<Scalar>>, tys: Seq<DataType>) -> bool {
    &&& row.len() == tys.len()
    &&& forall|i: int| #![trigger row[i]] 0 <= i < row.len() ==> typed(row[i], tys[i])
}

/// Decimals are in range and wide integers have all their bytes, also within structs and lists.
pub open spec fn valid_scalar(s: Scalar) -> bool
    decreases s, 0nat,
{
    match s {
        Scalar::Decimal(v) => v.wf(),
        Scalar::Int256(v) => v.len() == 32,
        Scalar::Struct(vs) => valid_row(vs),
        Scalar::List(vs) => valid_row(vs),
        _ => true,
    }
}

/// The datum is null, or within the limits of its parts.
pub open spec fn valid_datum(d: Option<Scalar>) -> bool
    decreases d, 1nat,
{
    match d {
        None => true,
        Some(s) => valid_scalar(s),
    }
}

/// Each datum is within the limits of its parts.
pub open spec fn valid_row(row: Seq<Option<Scalar>>) -> bool
    decreases row, 2nat,
{
    forall|i: int| #![trigger row[i]] 0 <= i < row.len() ==> valid_datum(row[i])
}

/// A datum of some type is within the limits of its parts.
pub proof fn typed_datum_is_valid(d: Option<Scalar>, ty: DataType)
    requires
        typed(d, ty),
    ensures
        valid_datum(d),
    decreases d,
{
    if let Some(s) = d {
        match (s, ty) {
            (Scalar::Struct(vs), DataType::Struct(tys)) => {
                assert forall|i: int| #![trigger vs[i]] 0 <= i < vs.len() implies valid_datum(
                    vs[i],
                ) by {
                    typed_datum_is_valid(vs[i], tys@[i]);
                }
            },
            (Scalar::List(vs), DataType::List(t)) => {
                assert forall|i: int| #![trigger vs[i]] 0 <= i < vs.len() implies valid_datum(
                    vs[i],
                ) by {
                    typed_datum_is_valid(vs[i], *t);
                }
            },
            _ => {},
        }
    }
}

/// The value that stands for all values equal to `s`, where the parts of structs and lists are
/// told apart by their representation.
pub open spec fn normal_scalar(s: Scalar) -> Scalar {
    match s {
        Scalar::Float32(v) => Scalar::Float32(v.normal_form()),
        Scalar::Float64(v) => Scalar::Float64(v.normal_form()),
        Scalar::Decimal(v) => Scalar::Decimal(v.normal_form()),
        _ => s,
    }
}

/// The datum that stands for all datums equal to `d`.
pub open spec fn normal_datum(d: Option<Scalar>) -> Option<Scalar> {
    match d {
        None => None,
        Some(s) => Some(normal_scalar(s)),
    }
}

/// The row that stands for all rows equal to `row`.
pub open spec fn normal_row(row: Seq<Option<Scalar>>) -> Seq<Option<Scalar>> {
    Seq::new(row.len(), |i: int| normal_datum(row[i]))
}

/// The value that stands for all values equal to `s`, also within structs and lists.
pub open spec fn canonical_scalar(s: Scalar) -> Scalar
    decreases s, 0nat,
{
    match s {
        Scalar::Struct(vs) => Scalar::Struct(canonical_row(vs)),
        Scalar::List(vs) => Scalar::List(canonical_row(vs)),
        _ => normal_scalar(s),
    }
}

/// The datum that stands for all datums equal to `d`, also within structs and lists.
pub open spec fn canonical_datum(d: Option<Scalar>) -> Option<Scalar>
    decreases d, 1nat,
{
    match d {
        None => None,
        Some(s) => Some(canonical_scalar(s)),
    }
}

/// The row that stands for all rows equal to `row`, also within structs and lists.
pub open spec fn canonical_row(row: Seq<Option<Scalar>>) -> Seq<Option<Scalar>>
    decreases row, 0nat,
{
    if row.len() == 0 {
        Seq::empty()
    } else {
        seq![canonical_datum(row[0])] + canonical_row(row.drop_first())
    }
}

pub broadcast proof fn lemma_canonical_row_len(row: Seq<Option<Scalar>>)
    ensures
        #[trigger] canonical_row(row).len() == row.len(),
    decreases row.len(),
{
    if row.len() > 0 {
        lemma_canonical_row_len(row.drop_first());
    }
}

pub broadcast proof fn lemma_canonical_row_index(row: Seq<Option<Scalar>>, i: int)
    requires
        0 <= i < row.len(),
    ensures
        #[trigger] canonical_row(row)[i] == canonical_datum(row[i]),
    decreases row.len(),
{
    lemma_canonical_row_len(row.drop_first());
    if i > 0 {
        lemma_canonical_row_index(row.drop_first(), i - 1);
    }
}

/// A row that owns its datums.
#[derive(Debug, PartialEq, Eq, Hash)]
pub struct OwnedRow {
    pub datums: Vec<Datum>,
}

impl View for OwnedRow {
    type V = Seq<Option<Scalar>>;

    open spec fn view(&self) -> Seq<Option<Scalar>> {
        row_model(self.datums@)
    }
}

impl OwnedRow {
    pub fn new(datums: Vec<Datum>) -> (r: Self)
        ensures
            r.datums == datums,
    {
        OwnedRow { datums }
    }

    /// The number of columns.
    pub fn size(&self) -> (n: usize)
        ensures
            n == self@.len(),
    {
        proof {
            lemma_row_model_len(self.datums@);
        }
        self.datums.len()
    }
}

impl Clone for OwnedRow {
    fn clone(&self) -> (r: Self)
        ensures
            r@ == self@,
    {
        OwnedRow { datums: clone_datums(&self.datums) }
    }
}

} // verus!
