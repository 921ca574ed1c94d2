//! The byte form of datums: a tag byte for null, then the value.
use vstd::prelude::*;
use vstd::utf8::{decode_utf8, encode_utf8, valid_utf8};

use crate::decimal::{decimal_bytes, decimal_from_bytes, Decimal};
use crate::float::{F32, F64};
use crate::scalar::{
    clone_bytes, datum_model, lemma_row_model_index, lemma_row_model_len, lemma_row_model_push,
    row_model, row_typed, typed, DataType, Datum, Int256, OwnedRow, Scalar, ScalarImpl, Serial,
};
use crate::temporal::{valid_days, valid_time, valid_timestamp, Date, Time, Timestamp};
use crate::wire::{
    le_bytes, le_value, lemma_byte_ranges, lemma_le_value_of_bytes, put_le, ByteCursor,
};

verus! {

/// Why bytes are not the form of a datum of the wanted type.
#[derive(Clone, Copy, Debug, PartialEq, Eq, Structural)]
pub enum ValueEncodingError {
    /// The bytes end within the value.
    UnexpectedEnd,
    /// The null tag is neither 0 nor 1.
    InvalidTag(u8),
    /// A boolean is neither 0 nor 1.
    InvalidBool(u8),
    /// A string is not UTF-8.
    InvalidUtf8,
    InvalidDecimal,
    InvalidDate,
    InvalidTime,
    InvalidTimestamp,
}

/// The byte form of a value that is not null.
pub open spec fn scalar_bytes(s: Scalar) -> Seq<u8>
    decreases s, 0nat,
{
    match s {
        Scalar::Bool(v) => seq![if v {
            1u8
        } else {
            0u8
        }],
        Scalar::Int16(v) => le_bytes((v as u16) as nat, 2),
        Scalar::Int32(v) => le_bytes((v as u32) as nat, 4),
        Scalar::Int64(v) => le_bytes((v as u64) as nat, 8),
        Scalar::Float32(v) => le_bytes(v.bits as nat, 4),
        Scalar::Float64(v) => le_bytes(v.bits as nat, 8),
        Scalar::Decimal(v) => decimal_bytes(v),
        Scalar::Date(v) => le_bytes((v.days as u32) as nat, 4),
        Scalar::Utf8(v) => sized_bytes(encode_utf8(v)),
        Scalar::Time(v) => le_bytes(v.secs as nat, 4) + le_bytes(v.nano as nat, 4),
        Scalar::Timestamp(v) => le_bytes((v.secs as u64) as nat, 8) + le_bytes(v.nsecs as nat, 4),
        Scalar::Bytea(v) => sized_bytes(v),
        Scalar::Jsonb(v) => sized_bytes(v),
        Scalar::Serial(v) => le_bytes((v.id as u64) as nat, 8),
        Scalar::Int256(v) => v,
        Scalar::Struct(vs) => row_bytes(vs),
        Scalar::List(vs) => le_bytes(vs.len(), 4) + row_bytes(vs),
    }
}

/// A length in four bytes, and as many bytes.
pub open spec fn sized_bytes(b: Seq<u8>) -> Seq<u8> {
    le_bytes(b.len(), 4) + b
}

/// The byte form of a datum.
pub open spec fn datum_bytes(d: Option<Scalar>) -> Seq<u8>
    decreases d, 1nat,
{
    match d {
        None => seq![0u8],
        Some(s) => seq![1u8] + scalar_bytes(s),
    }
}

/// The byte forms of datums, one after the other.
pub open spec fn row_bytes(row: Seq<Option<Scalar>>) -> Seq<u8>
    decreases row, 0nat,
{
    if row.len() == 0 {
        Seq::empty()
    } else {
        datum_bytes(row[0]) + row_bytes(row.drop_first())
    }
}

pub type Decoded = Result<(Option<Scalar>, Seq<u8>), ValueEncodingError>;

/// The first `n` bytes of `b` through `f`, with the bytes behind them.
pub open spec fn decode_prefix(
    b: Seq<u8>,
    n: nat,
    f: spec_fn(Seq<u8>) -> Result<Scalar, ValueEncodingError>,
) -> Decoded {
    if b.len() < n {
        Err(ValueEncodingError::UnexpectedEnd)
    } else {
        match f(b.take(n as int)) {
            Ok(s) => Ok((Some(s), b.skip(n as int))),
            Err(e) => Err(e),
        }
    }
}

/// The bytes that follow a four-byte length, through `f`, with the bytes behind them.
pub open spec fn decode_sized(
    b: Seq<u8>,
    f: spec_fn(Seq<u8>) -> Result<Scalar, ValueEncodingError>,
) -> Decoded {
    if b.len() < 4 {
        Err(ValueEncodingError::UnexpectedEnd)
    } else {
        decode_prefix(b.skip(4), le_value(b.take(4)), f)
    }
}

pub open spec fn utf8_scalar(b: Seq<u8>) -> Result<Scalar, ValueEncodingError> {
    if valid_utf8(b) {
        Ok(Scalar::Utf8(decode_utf8(b)))
    } else {
        Err(ValueEncodingError::InvalidUtf8)
    }
}

/// The value of a type of constant width that `b`, which has that width, denotes. A type
/// whose values have no constant width gives no value.
pub open spec fn plain_scalar(b: Seq<u8>, ty: DataType) -> Result<Scalar, ValueEncodingError> {
    match ty {
        DataType::Boolean => if b[0] == 0 {
            Ok(Scalar::Bool(false))
        } else if b[0] == 1 {
            Ok(Scalar::Bool(true))
        } else {
            Err(ValueEncodingError::InvalidBool(b[0]))
        },
        DataType::Int16 => Ok(Scalar::Int16((le_value(b) as u16) as i16)),
        DataType::Int32 => Ok(Scalar::Int32((le_value(b) as u32) as i32)),
        DataType::Int64 => Ok(Scalar::Int64((le_value(b) as u64) as i64)),
        DataType::Float32 => Ok(Scalar::Float32(F32 { bits: le_value(b) as u32 })),
        DataType::Float64 => Ok(Scalar::Float64(F64 { bits: le_value(b) as u64 })),
        DataType::Decimal => match decimal_from_bytes(b) {
            Some(d) => Ok(Scalar::Decimal(d)),
            None => Err(ValueEncodingError::InvalidDecimal),
        },
        DataType::Date => {
            let days = (le_value(b) as u32) as i32;
            if valid_days(days as int) {
                Ok(Scalar::Date(Date { days }))
            } else {
                Err(ValueEncodingError::InvalidDate)
            }
        },
        DataType::Time => {
            let (secs, nano) = (le_value(b.take(4)) as u32, le_value(b.skip(4)) as u32);
            if valid_time(secs as int, nano as int) {
                Ok(Scalar::Time(Time { secs, nano }))
            } else {
                Err(ValueEncodingError::InvalidTime)
            }
        },
        DataType::Timestamp => {
            let (secs, nsecs) = ((le_value(b.take(8)) as u64) as i64, le_value(b.skip(8)) as u32);
            if valid_timestamp(secs as int, nsecs as int) {
                Ok(Scalar::Timestamp(Timestamp { secs, nsecs }))
            } else {
                Err(ValueEncodingError::InvalidTimestamp)
            }
        },
        DataType::Serial => Ok(Scalar::Serial(Serial { id: (le_value(b) as u64) as i64 })),
        DataType::Int256 => Ok(Scalar::Int256(b)),
        _ => Err(ValueEncodingError::UnexpectedEnd),
    }
}

/// The number of bytes of a value, where all values of the type have the same.
pub open spec fn plain_width(ty: DataType) -> nat {
    match ty {
        DataType::Boolean => 1,
        DataType::Int16 => 2,
        DataType::Int32 => 4,
        DataType::Int64 => 8,
        DataType::Float32 => 4,
        DataType::Float64 => 8,
        DataType::Decimal => 16,
        DataType::Date => 4,
        DataType::Time => 8,
        DataType::Timestamp => 12,
        DataType::Serial => 8,
        DataType::Int256 => 32,
        _ => 0,
    }
}

/// The value that follows the null tag, and the bytes behind it.
pub open spec fn decode_value(b: Seq<u8>, ty: DataType) -> Decoded
    decreases ty, 0nat,
{
    match ty {
        DataType::Varchar => decode_sized(b, |x: Seq<u8>| utf8_scalar(x)),
        DataType::Bytea => decode_sized(b, |x: Seq<u8>| Ok(Scalar::Bytea(x))),
        DataType::Jsonb => decode_sized(b, |x: Seq<u8>| Ok(Scalar::Jsonb(x))),
        DataType::Struct(tys) => match decode_row(b, tys@) {
            Ok((vs, rest)) => Ok((Some(Scalar::Struct(vs)), rest)),
            Err(e) => Err(e),
        },
        DataType::List(t) => if b.len() < 4 {
            Err(ValueEncodingError::UnexpectedEnd)
        } else {
            match decode_many(b.skip(4), *t, le_value(b.take(4))) {
                Ok((vs, rest)) => Ok((Some(Scalar::List(vs)), rest)),
                Err(e) => Err(e),
            }
        },
        _ => decode_prefix(b, plain_width(ty), |x: Seq<u8>| plain_scalar(x, ty)),
    }
}

/// The datum that `b` begins with, and the bytes behind it.
pub open spec fn decode_datum(b: Seq<u8>, ty: DataType) -> Decoded
    decreases ty, 1nat,
{
    if b.len() < 1 {
        Err(ValueEncodingError::UnexpectedEnd)
    } else if b[0] == 0 {
        Ok((None, b.skip(1)))
    } else if b[0] == 1 {
        decode_value(b.skip(1), ty)
    } else {
        Err(ValueEncodingError::InvalidTag(b[0]))
    }
}

pub type DecodedRow = Result<(Seq<Option<Scalar>>, Seq<u8>), ValueEncodingError>;

/// One datum of each type, and the bytes behind them.
pub open spec fn decode_row(b: Seq<u8>, tys: Seq<DataType>) -> DecodedRow
    decreases tys, 0nat,
{
    if tys.len() == 0 {
        Ok((Seq::empty(), b))
    } else {
        match decode_datum(b, tys[0]) {
            Err(e) => Err(e),
            Ok((d, rest)) => match decode_row(rest, tys.drop_first()) {
                Err(e) => Err(e),
                Ok((ds, rest)) => Ok((seq![d] + ds, rest)),
            },
        }
    }
}

/// `n` datums of one type, and the bytes behind them.
pub open spec fn decode_many(b: Seq<u8>, ty: DataType, n: nat) -> DecodedRow
    decreases ty, n + 1,
{
    if n == 0 {
        Ok((Seq::empty(), b))
    } else {
        match decode_datum(b, ty) {
            Err(e) => Err(e),
            Ok((d, rest)) => match decode_many(rest, ty, (n - 1) as nat) {
                Err(e) => Err(e),
                Ok((ds, rest)) => Ok((seq![d] + ds, rest)),
            },
        }
    }
}

/// `String::from_utf8`: the string whose UTF-8 form the bytes are, or nothing where they
/// are not valid UTF-8.
#[verifier::external_body]
fn string_from_utf8(bytes: Vec<u8>) -> (r: Option<String>)
    ensures
        r is Some <==> valid_utf8(bytes@),
        r matches Some(s) ==> s@ == decode_utf8(bytes@),
{
    String::from_utf8(bytes).ok()
}

fn put_bytes(buf: &mut Vec<u8>, bytes: &[u8])
    ensures
        final(buf)@ == old(buf)@ + bytes@,
{
    let ghost start = buf@;
    let mut i: usize = 0;
    while i < bytes.len()
        invariant
            i <= bytes.len(),
            buf@ =~= start + bytes@.take(i as int),
        decreases bytes.len() - i,
    {
        buf.push(bytes[i]);
        i = i + 1;
    }
    assert(bytes@.take(bytes@.len() as int) =~= bytes@);
}

fn put_sized(buf: &mut Vec<u8>, bytes: &[u8])
    ensures
        final(buf)@ == old(buf)@ + sized_bytes(bytes@),
{
    put_le(buf, bytes.len() as u128, 4);
    put_bytes(buf, bytes);
    assert(buf@ =~= old(buf)@ + sized_bytes(bytes@));
}

/// Appends the byte form of a value that is not null.
pub fn serialize_scalar_into(scalar: &ScalarImpl, buf: &mut Vec<u8>)
    ensures
        final(buf)@ == old(buf)@ + scalar_bytes(scalar.model()),
    decreases scalar, 0nat,
{
    match scalar {
        ScalarImpl::Bool(v) => {
            buf.push(
                if *v {
                    1u8
                } else {
                    0u8
                },
            );
        },
        ScalarImpl::Int16(v) => {
            put_le(buf, (*v as u16) as u128, 2);
        },
        ScalarImpl::Int32(v) => {
            put_le(buf, (*v as u32) as u128, 4);
        },
        ScalarImpl::Int64(v) => {
            put_le(buf, (*v as u64) as u128, 8);
        },
        ScalarImpl::Float32(v) => {
            put_le(buf, v.bits as u128, 4);
        },
        ScalarImpl::Float64(v) => {
            put_le(buf, v.bits as u128, 8);
        },
        ScalarImpl::Decimal(v) => {
            let bytes = v.unordered_serialize();
            put_bytes(buf, bytes.as_slice());
        },
        ScalarImpl::Date(v) => {
            put_le(buf, (v.days as u32) as u128, 4);
        },
        ScalarImpl::Utf8(v) => {
            put_sized(buf, v.as_str().as_bytes());
        },
        ScalarImpl::Time(v) => {
            put_le(buf, v.secs as u128, 4);
            put_le(buf, v.nano as u128, 4);
        },
        ScalarImpl::Timestamp(v) => {
            put_le(buf, (v.secs as u64) as u128, 8);
            put_le(buf, v.nsecs as u128, 4);
        },
        ScalarImpl::Bytea(v) => {
            put_sized(buf, v.as_slice());
        },
        ScalarImpl::Jsonb(v) => {
            put_sized(buf, v.as_slice());
        },
        ScalarImpl::Serial(v) => {
            put_le(buf, (v.id as u64) as u128, 8);
        },
        ScalarImpl::Int256(v) => {
            put_bytes(buf, v.bytes.as_slice());
        },
        ScalarImpl::Struct(v) => {
            serialize_datums_into(v, buf);
        },
        ScalarImpl::List(v) => {
            proof {
                lemma_row_model_len(v@);
            }
            put_le(buf, v.len() as u128, 4);
            serialize_datums_into(v, buf);
        },
    }
    assert(buf@ =~= old(buf)@ + scalar_bytes(scalar.model()));
}

/// Appends the byte form of a datum.
pub fn serialize_datum_into(datum: &Datum, buf: &mut Vec<u8>)
    ensures
        final(buf)@ == old(buf)@ + datum_bytes(datum_model(*datum)),
    decreases datum, 1nat,
{
    match datum {
        None => {
            buf.push(0u8);
        },
        Some(s) => {
            buf.push(1u8);
            serialize_scalar_into(s, buf);
        },
    }
    assert(buf@ =~= old(buf)@ + datum_bytes(datum_model(*datum)));
}

/// Appends the byte forms of datums, one after the other.
pub fn serialize_datums_into(row: &Vec<Datum>, buf: &mut Vec<u8>)
    ensures
        final(buf)@ == old(buf)@ + row_bytes(row_model(row@)),
    decreases row, 0nat,
{
    let ghost start = buf@;
    let ghost all = row_model(row@);
    let mut i: usize = 0;
    proof {
        lemma_row_model_len(row@);
        assert(all.skip(0) =~= all);
    }
    while i < row.len()
        invariant
            i <= row.len(),
            all == row_model(row@),
            all.len() == row@.len(),
            buf@ + row_bytes(all.skip(i as int)) == start + row_bytes(all),
        decreases row.len() - i,
    {
        let ghost before = buf@;
        let ghost rest = all.skip(i as int);
        proof {
            assert(decreases_to!(row => row@[i as int]));
            lemma_row_model_index(row@, i as int);
            assert(rest.drop_first() =~= all.skip(i + 1));
        }
        serialize_datum_into(&row[i], buf);
        proof {
            assert(buf@ + row_bytes(rest.drop_first()) =~= before + row_bytes(rest));
        }
        i = i + 1;
    }
    assert(all.skip(all.len() as int) =~= Seq::<Option<Scalar>>::empty());
    assert(buf@ + row_bytes(all.skip(all.len() as int)) =~= buf@);
}

/// Reads the value of a type of constant width.
fn read_plain(source: &mut ByteCursor, ty: &DataType) -> (r: Result<ScalarImpl, ValueEncodingError>)
    requires
        old(source).wf(),
        plain_width(*ty) > 0,
        old(source).remaining().len() >= plain_width(*ty),
    ensures
        final(source).wf(),
        final(source).remaining() == old(source).remaining().skip(plain_width(*ty) as int),
        match plain_scalar(old(source).remaining().take(plain_width(*ty) as int), *ty) {
            Ok(s) => r matches Ok(v) && v.model() == s,
            Err(e) => r == Err::<ScalarImpl, _>(e),
        },
{
    let ghost all = source.remaining();
    proof {
        lemma_byte_ranges();
    }
    match ty {
        DataType::Boolean => {
            let b: u8 = source.read_u8();
            if b == 0 {
                Ok(ScalarImpl::Bool(false))
            } else if b == 1 {
                Ok(ScalarImpl::Bool(true))
            } else {
                Err(ValueEncodingError::InvalidBool(b))
            }
        },
        DataType::Int16 => {
            let v: u128 = source.read_le(2);
            Ok(ScalarImpl::Int16((v as u16) as i16))
        },
        DataType::Int32 => {
            let v: u128 = source.read_le(4);
            Ok(ScalarImpl::Int32((v as u32) as i32))
        },
        DataType::Int64 => {
            let v: u128 = source.read_le(8);
            Ok(ScalarImpl::Int64((v as u64) as i64))
        },
        DataType::Float32 => {
            let v: u128 = source.read_le(4);
            Ok(ScalarImpl::Float32(F32 { bits: v as u32 }))
        },
        DataType::Float64 => {
            let v: u128 = source.read_le(8);
            Ok(ScalarImpl::Float64(F64 { bits: v as u64 }))
        },
        DataType::Decimal => {
            let bytes = source.read_bytes(16);
            match Decimal::unordered_deserialize(bytes.as_slice()) {
                Some(d) => Ok(ScalarImpl::Decimal(d)),
                None => Err(ValueEncodingError::InvalidDecimal),
            }
        },
        DataType::Date => {
            let v: u128 = source.read_le(4);
            match Date::with_days((v as u32) as i32) {
                Some(d) => Ok(ScalarImpl::Date(d)),
                None => Err(ValueEncodingError::InvalidDate),
            }
        },
        DataType::Time => {
            let secs: u128 = source.read_le(4);
            let nano: u128 = source.read_le(4);
            proof {
                assert(all.skip(4).take(4) =~= all.take(8).skip(4));
                assert(all.take(8).take(4) =~= all.take(4));
                assert(all.skip(4).skip(4) =~= all.skip(8));
            }
            match Time::with_secs_nano(secs as u32, nano as u32) {
                Some(t) => Ok(ScalarImpl::Time(t)),
                None => Err(ValueEncodingError::InvalidTime),
            }
        },
        DataType::Timestamp => {
            let secs: u128 = source.read_le(8);
            let nsecs: u128 = source.read_le(4);
            proof {
                assert(all.skip(8).take(4) =~= all.take(12).skip(8));
                assert(all.take(12).take(8) =~= all.take(8));
                assert(all.skip(8).skip(4) =~= all.skip(12));
            }
            match Timestamp::with_secs_nsecs((secs as u64) as i64, nsecs as u32) {
                Some(t) => Ok(ScalarImpl::Timestamp(t)),
                None => Err(ValueEncodingError::InvalidTimestamp),
            }
        },
        DataType::Serial => {
            let v: u128 = source.read_le(8);
            Ok(ScalarImpl::Serial(Serial { id: (v as u64) as i64 }))
        },
        DataType::Int256 => {
            let v = source.read_bytes(32);
            let mut bytes: [u8; 32] = [0u8;32];
            let mut i: usize = 0;
            while i < 32
                invariant
                    i <= 32,
                    v@.len() == 32,
                    forall|j: int| 0 <= j < i ==> bytes@[j] == v@[j],
                decreases 32 - i,
            {
                bytes[i] = v[i];
                i = i + 1;
            }
            assert(bytes@ =~= v@);
            Ok(ScalarImpl::Int256(Int256 { bytes }))
        },
        _ => Err(ValueEncodingError::UnexpectedEnd),
    }
}

fn plain_width_of(ty: &DataType) -> (n: usize)
    ensures
        n == plain_width(*ty),
{
    match ty {
        DataType::Boolean => 1,
        DataType::Int16 => 2,
        DataType::Int32 => 4,
        DataType::Int64 => 8,
        DataType::Float32 => 4,
        DataType::Float64 => 8,
        DataType::Decimal => 16,
        DataType::Date => 4,
        DataType::Time => 8,
        DataType::Timestamp => 12,
        DataType::Serial => 8,
        DataType::Int256 => 32,
        _ => 0,
    }
}

/// Reads a four-byte length and as many bytes.
fn read_sized(source: &mut ByteCursor) -> (r: Result<Vec<u8>, ValueEncodingError>)
    requires
        old(source).wf(),
    ensures
        final(source).wf(),
        ({
            let b = old(source).remaining();
            let n = le_value(b.take(4));
            if b.len() < 4 || b.skip(4).len() < n {
                r == Err::<Vec<u8>, _>(ValueEncodingError::UnexpectedEnd)
            } else {
                &&& r matches Ok(v) && v@ == b.skip(4).take(n as int)
                &&& final(source).remaining() == b.skip(4).skip(n as int)
            }
        }),
{
    if source.remaining_len() < 4 {
        return Err(ValueEncodingError::UnexpectedEnd);
    }
    let n: u128 = source.read_le(4);
    if (source.remaining_len() as u128) < n {
        return Err(ValueEncodingError::UnexpectedEnd);
    }
    Ok(source.read_bytes(n as usize))
}

/// `source` gave `r` and stands behind it, or failed, as `want` says.
pub open spec fn read_as(
    r: Result<Datum, ValueEncodingError>,
    source: ByteCursor,
    want: Decoded,
) -> bool {
    match want {
        Ok((d, rest)) => r matches Ok(v) && datum_model(v) == d && source.remaining() == rest,
        Err(e) => r == Err::<Datum, _>(e),
    }
}

fn deserialize_value(source: &mut ByteCursor, ty: &DataType) -> (r: Result<
    Datum,
    ValueEncodingError,
>)
    requires
        old(source).wf(),
    ensures
        final(source).wf(),
        read_as(r, *final(source), decode_value(old(source).remaining(), *ty)),
    decreases ty, 0nat,
{
    match ty {
        DataType::Varchar => match read_sized(source) {
            Err(e) => Err(e),
            Ok(bytes) => match string_from_utf8(bytes) {
                Some(s) => Ok(Some(ScalarImpl::Utf8(s))),
                None => Err(ValueEncodingError::InvalidUtf8),
            },
        },
        DataType::Bytea => match read_sized(source) {
            Err(e) => Err(e),
            Ok(bytes) => Ok(Some(ScalarImpl::Bytea(bytes))),
        },
        DataType::Jsonb => match read_sized(source) {
            Err(e) => Err(e),
            Ok(bytes) => Ok(Some(ScalarImpl::Jsonb(bytes))),
        },
        DataType::Struct(tys) => {
            proof {
                assert(decreases_to!(tys => tys@));
            }
            match deserialize_datums(source, tys.as_slice()) {
                Err(e) => Err(e),
                Ok(vs) => Ok(Some(ScalarImpl::Struct(vs))),
            }
        },
        DataType::List(t) => {
            if source.remaining_len() < 4 {
                return Err(ValueEncodingError::UnexpectedEnd);
            }
            let n: u128 = source.read_le(4);
            match deserialize_many(source, t, n) {
                Err(e) => Err(e),
                Ok(vs) => Ok(Some(ScalarImpl::List(vs))),
            }
        },
        _ => {
            let n: usize = plain_width_of(ty);
            if source.remaining_len() < n {
                return Err(ValueEncodingError::UnexpectedEnd);
            }
            match read_plain(source, ty) {
                Ok(s) => Ok(Some(s)),
                Err(e) => Err(e),
            }
        },
    }
}

/// Reads one datum.
pub fn deserialize_datum(source: &mut ByteCursor, ty: &DataType) -> (r: Result<
    Datum,
    ValueEncodingError,
>)
    requires
        old(source).wf(),
    ensures
        final(source).wf(),
        read_as(r, *final(source), decode_datum(old(source).remaining(), *ty)),
    decreases ty, 1nat,
{
    if source.remaining_len() < 1 {
        return Err(ValueEncodingError::UnexpectedEnd);
    }
    let tag: u8 = source.read_u8();
    if tag == 0 {
        Ok(None)
    } else if tag == 1 {
        deserialize_value(source, ty)
    } else {
        Err(ValueEncodingError::InvalidTag(tag))
    }
}

/// Reads one datum of each type.
pub fn deserialize_datums(source: &mut ByteCursor, tys: &[DataType]) -> (r: Result<
    Vec<Datum>,
    ValueEncodingError,
>)
    requires
        old(source).wf(),
    ensures
        final(source).wf(),
        match decode_row(old(source).remaining(), tys@) {
            Ok((ds, rest)) => r matches Ok(vs) && row_model(vs@) == ds && final(source).remaining()
                == rest,
            Err(e) => r == Err::<Vec<Datum>, _>(e),
        },
    decreases tys@, 0nat,
{
    let ghost want = decode_row(source.remaining(), tys@);
    let mut out: Vec<Datum> = Vec::new();
    let mut i: usize = 0;
    assert(tys@.skip(0) =~= tys@);
    assert(decoded_after(row_model(out@), decode_row(source.remaining(), tys@.skip(0))) =~= want) by {
        lemma_decoded_after_nothing(want);
    }
    while i < tys.len()
        invariant
            i <= tys.len(),
            source.wf(),
            want == decode_row(old(source).remaining(), tys@),
            decoded_after(row_model(out@), decode_row(source.remaining(), tys@.skip(i as int)))
                == want,
        decreases tys.len() - i,
    {
        let ghost (before, rest_tys) = (out@, tys@.skip(i as int));
        proof {
            assert(decreases_to!(tys@ => tys@[i as int]));
            assert(rest_tys[0] == tys@[i as int]);
            assert(rest_tys.drop_first() =~= tys@.skip(i + 1));
        }
        let d: Datum = match deserialize_datum(source, &tys[i]) {
            Ok(d) => d,
            Err(e) => {
                return Err(e);
            },
        };
        out.push(d);
        proof {
            lemma_row_model_push(before, d);
            lemma_decoded_after_step(
                row_model(before),
                datum_model(d),
                decode_row(source.remaining(), rest_tys.drop_first()),
            );
        }
        i = i + 1;
    }
    assert(tys@.skip(tys@.len() as int) =~= Seq::<DataType>::empty());
    proof {
        assert(row_model(out@) + Seq::<Option<Scalar>>::empty() =~= row_model(out@));
    }
    Ok(out)
}

fn deserialize_many(source: &mut ByteCursor, ty: &DataType, n: u128) -> (r: Result<
    Vec<Datum>,
    ValueEncodingError,
>)
    requires
        old(source).wf(),
    ensures
        final(source).wf(),
        match decode_many(old(source).remaining(), *ty, n as nat) {
            Ok((ds, rest)) => r matches Ok(vs) && row_model(vs@) == ds && final(source).remaining()
                == rest,
            Err(e) => r == Err::<Vec<Datum>, _>(e),
        },
    decreases ty, 2nat,
{
    let ghost want = decode_many(source.remaining(), *ty, n as nat);
    let mut out: Vec<Datum> = Vec::new();
    let mut left: u128 = n;
    proof {
        lemma_decoded_after_nothing(want);
    }
    while left > 0
        invariant
            source.wf(),
            want == decode_many(old(source).remaining(), *ty, n as nat),
            decoded_after(row_model(out@), decode_many(source.remaining(), *ty, left as nat)) == want,
        decreases left,
    {
        let ghost before = out@;
        let d: Datum = match deserialize_datum(source, ty) {
            Ok(d) => d,
            Err(e) => {
                return Err(e);
            },
        };
        out.push(d);
        proof {
            lemma_row_model_push(before, d);
            lemma_decoded_after_step(
                row_model(before),
                datum_model(d),
                decode_many(source.remaining(), *ty, (left - 1) as nat),
            );
        }
        left = left - 1;
    }
    proof {
        assert(row_model(out@) + Seq::<Option<Scalar>>::empty() =~= row_model(out@));
    }
    Ok(out)
}

/// `more`, with the datums in front that were read before it.
spec fn decoded_after(done: Seq<Option<Scalar>>, more: DecodedRow) -> DecodedRow {
    match more {
        Ok((ds, rest)) => Ok((done + ds, rest)),
        Err(e) => Err(e),
    }
}

proof fn lemma_decoded_after_nothing(more: DecodedRow)
    ensures
        decoded_after(row_model(Seq::empty()), more) == more,
{
    if let Ok((ds, rest)) = more {
        assert(Seq::<Option<Scalar>>::empty() + ds =~= ds);
    }
}

proof fn lemma_decoded_after_step(done: Seq<Option<Scalar>>, d: Option<Scalar>, more: DecodedRow)
    ensures
        decoded_after(done.push(d), more) == decoded_after(done, decoded_after(seq![d], more)),
{
    if let Ok((ds, rest)) = more {
        assert(done.push(d) + ds =~= done + (seq![d] + ds));
    }
}

/// Reads rows of given column types.
pub struct RowDeserializer<'a> {
    data_types: &'a [DataType],
}

impl<'a> RowDeserializer<'a> {
    pub closed spec fn data_types(&self) -> Seq<DataType> {
        self.data_types@
    }

    pub fn new(data_types: &'a [DataType]) -> (r: Self)
        ensures
            r.data_types() == data_types@,
    {
        RowDeserializer { data_types }
    }

    /// Reads the row that `bytes` begin with.
    pub fn deserialize(&self, bytes: &[u8]) -> (r: Result<OwnedRow, ValueEncodingError>)
        ensures
            match decode_row(bytes@, self.data_types()) {
                Ok((ds, _)) => r matches Ok(row) && row@ == ds,
                Err(e) => r == Err::<OwnedRow, _>(e),
            },
    {
        let mut source = ByteCursor::new(clone_bytes(bytes));
        match deserialize_datums(&mut source, self.data_types) {
            Ok(datums) => Ok(OwnedRow::new(datums)),
            Err(e) => Err(e),
        }
    }
}

pub proof fn lemma_plain_round_trip(s: Scalar, ty: DataType)
    requires
        plain_width(ty) > 0,
        typed(Some(s), ty),
    ensures
        scalar_bytes(s).len() == plain_width(ty),
        plain_scalar(scalar_bytes(s), ty) == Ok::<_, ValueEncodingError>(s),
{
    lemma_byte_ranges();
    match s {
        Scalar::Int16(v) => {
            lemma_le_value_of_bytes((v as u16) as nat, 2);
            assert(((v as u16) as i16) == v) by (bit_vector);
        },
        Scalar::Int32(v) => {
            lemma_le_value_of_bytes((v as u32) as nat, 4);
            assert(((v as u32) as i32) == v) by (bit_vector);
        },
        Scalar::Int64(v) => {
            lemma_le_value_of_bytes((v as u64) as nat, 8);
            assert(((v as u64) as i64) == v) by (bit_vector);
        },
        Scalar::Float32(v) => {
            lemma_le_value_of_bytes(v.bits as nat, 4);
        },
        Scalar::Float64(v) => {
            lemma_le_value_of_bytes(v.bits as nat, 8);
        },
        Scalar::Decimal(v) => {
            crate::decimal::decimal_bytes_round_trip(v);
        },
        Scalar::Date(v) => {
            let days = v.days;
            lemma_le_value_of_bytes((days as u32) as nat, 4);
            assert(((days as u32) as i32) == days) by (bit_vector);
        },
        Scalar::Time(v) => {
            lemma_le_value_of_bytes(v.secs as nat, 4);
            lemma_le_value_of_bytes(v.nano as nat, 4);
            let b = scalar_bytes(s);
            assert(b.take(4) =~= le_bytes(v.secs as nat, 4));
            assert(b.skip(4) =~= le_bytes(v.nano as nat, 4));
        },
        Scalar::Timestamp(v) => {
            let secs = v.secs;
            lemma_le_value_of_bytes((secs as u64) as nat, 8);
            lemma_le_value_of_bytes(v.nsecs as nat, 4);
            assert(((secs as u64) as i64) == secs) by (bit_vector);
            let b = scalar_bytes(s);
            assert(b.take(8) =~= le_bytes((secs as u64) as nat, 8));
            assert(b.skip(8) =~= le_bytes(v.nsecs as nat, 4));
        },
        Scalar::Serial(v) => {
            let id = v.id;
            lemma_le_value_of_bytes((id as u64) as nat, 8);
            assert(((id as u64) as i64) == id) by (bit_vector);
        },
        _ => {},
    }
}

proof fn lemma_sized_round_trip(b: Seq<u8>, rest: Seq<u8>)
    requires
        b.len() <= u32::MAX,
    ensures
        ({
            let all = sized_bytes(b) + rest;
            &&& all.len() >= 4
            &&& le_value(all.take(4)) == b.len()
            &&& all.skip(4).len() >= b.len()
            &&& all.skip(4).take(b.len() as int) == b
            &&& all.skip(4).skip(b.len() as int) == rest
        }),
{
    lemma_byte_ranges();
    lemma_le_value_of_bytes(b.len(), 4);
    let all = sized_bytes(b) + rest;
    assert(all.take(4) =~= le_bytes(b.len(), 4));
    assert(all.skip(4) =~= b + rest);
    assert((b + rest).take(b.len() as int) =~= b);
    assert((b + rest).skip(b.len() as int) =~= rest);
}

proof fn lemma_value_round_trip(s: Scalar, ty: DataType, rest: Seq<u8>)
    requires
        typed(Some(s), ty),
    ensures
        decode_value(scalar_bytes(s) + rest, ty) == Ok::<_, ValueEncodingError>((Some(s), rest)),
    decreases ty, 0nat, 0nat,
{
    let b = scalar_bytes(s) + rest;
    match ty {
        DataType::Varchar => {
            let v = s->Utf8_0;
            lemma_sized_round_trip(encode_utf8(v), rest);
            vstd::utf8::encode_utf8_valid_utf8(v);
            vstd::utf8::encode_utf8_decode_utf8(v);
        },
        DataType::Bytea => {
            lemma_sized_round_trip(s->Bytea_0, rest);
        },
        DataType::Jsonb => {
            lemma_sized_round_trip(s->Jsonb_0, rest);
        },
        DataType::Struct(tys) => {
            datum_row_round_trip(s->Struct_0, tys@, rest);
        },
        DataType::List(t) => {
            let vs = s->List_0;
            lemma_byte_ranges();
            lemma_le_value_of_bytes(vs.len(), 4);
            assert(b.take(4) =~= le_bytes(vs.len(), 4));
            assert(b.skip(4) =~= row_bytes(vs) + rest);
            lemma_many_round_trip(vs, *t, rest);
        },
        _ => {
            lemma_plain_round_trip(s, ty);
            assert(b.take(plain_width(ty) as int) =~= scalar_bytes(s));
            assert(b.skip(plain_width(ty) as int) =~= rest);
        },
    }
}

/// A datum of a type is read back from its byte form, whatever bytes follow.
pub proof fn datum_round_trip(d: Option<Scalar>, ty: DataType, rest: Seq<u8>)
    requires
        typed(d, ty),
    ensures
        decode_datum(datum_bytes(d) + rest, ty) == Ok::<_, ValueEncodingError>((d, rest)),
    decreases ty, 1nat, 0nat,
{
    let b = datum_bytes(d) + rest;
    match d {
        None => {
            assert(b.skip(1) =~= rest);
        },
        Some(s) => {
            assert(b.skip(1) =~= scalar_bytes(s) + rest);
            lemma_value_round_trip(s, ty, rest);
        },
    }
}

/// A row is read back from the byte forms of its datums, whatever bytes follow.
pub proof fn datum_row_round_trip(row: Seq<Option<Scalar>>, tys: Seq<DataType>, rest: Seq<u8>)
    requires
        row_typed(row, tys),
    ensures
        decode_row(row_bytes(row) + rest, tys) == Ok::<_, ValueEncodingError>((row, rest)),
    decreases tys, 0nat, 0nat,
{
    if tys.len() > 0 {
        let b = row_bytes(row) + rest;
        let tail = row_bytes(row.drop_first()) + rest;
        assert(b =~= datum_bytes(row[0]) + tail);
        assert(typed(row[0], tys[0]));
        assert(row_typed(row.drop_first(), tys.drop_first())) by {
            assert forall|i: int| #![trigger row.drop_first()[i]] 0 <= i
                < row.drop_first().len() implies typed(
                row.drop_first()[i],
                tys.drop_first()[i],
            ) by {
                assert(typed(row[i + 1], tys[i + 1]));
            }
        }
        datum_round_trip(row[0], tys[0], tail);
        datum_row_round_trip(row.drop_first(), tys.drop_first(), rest);
        assert(seq![row[0]] + row.drop_first() =~= row);
    } else {
        assert(row =~= Seq::empty());
        assert(row_bytes(row) + rest =~= rest);
    }
}

proof fn lemma_many_round_trip(row: Seq<Option<Scalar>>, ty: DataType, rest: Seq<u8>)
    requires
        forall|i: int| #![trigger row[i]] 0 <= i < row.len() ==> typed(row[i], ty),
    ensures
        decode_many(row_bytes(row) + rest, ty, row.len()) == Ok::<_, ValueEncodingError>(
            (row, rest),
        ),
    decreases ty, 2nat, row.len(),
{
    if row.len() > 0 {
        let tail = row_bytes(row.drop_first()) + rest;
        assert(row_bytes(row) + rest =~= datum_bytes(row[0]) + tail);
        assert(typed(row[0], ty));
        assert forall|i: int| #![trigger row.drop_first()[i]] 0 <= i
            < row.drop_first().len() implies typed(row.drop_first()[i], ty) by {
            assert(typed(row[i + 1], ty));
        }
        datum_round_trip(row[0], ty, tail);
        lemma_many_round_trip(row.drop_first(), ty, rest);
        assert(seq![row[0]] + row.drop_first() =~= row);
    } else {
        assert(row =~= Seq::empty());
        assert(row_bytes(row) + rest =~= rest);
    }
}

/// Two rows of the same column types have the same bytes only if they are the same row.
pub proof fn row_bytes_injective(
    a: Seq<Option<Scalar>>,
    b: Seq<Option<Scalar>>,
    tys: Seq<DataType>,
)
    requires
        row_typed(a, tys),
        row_typed(b, tys),
        row_bytes(a) == row_bytes(b),
    ensures
        a == b,
{
    datum_row_round_trip(a, tys, Seq::empty());
    datum_row_round_trip(b, tys, Seq::empty());
}

pub proof fn lemma_row_bytes_push(row: Seq<Option<Scalar>>, d: Option<Scalar>)
    ensures
        row_bytes(row.push(d)) == row_bytes(row) + datum_bytes(d),
    decreases row.len(),
{
    if row.len() == 0 {
        assert(row.push(d).drop_first() =~= Seq::empty());
        assert(row_bytes(row.push(d)) =~= row_bytes(row) + datum_bytes(d)) by {
            assert(row_bytes(Seq::<Option<Scalar>>::empty()) =~= Seq::<u8>::empty());
            assert(row.push(d)[0] == d);
        }
    } else {
        lemma_row_bytes_push(row.drop_first(), d);
        assert(row.push(d).drop_first() =~= row.drop_first().push(d));
        assert(row_bytes(row.push(d)) =~= row_bytes(row) + datum_bytes(d));
    }
}

} // verus!
