//! How single column values go into hash keys and come back out.
use vstd::pervasive::unreached;
use vstd::prelude::*;
use vstd::slice::slice_subrange;

use crate::decimal::{decimal_normalize_keeps_value, Decimal};
use crate::float::{F32, F64};
use crate::scalar::{
    clone_bytes, clone_datums, normal_scalar, row_model, typed, DataType, Datum, Int256, Scalar,
    ScalarImpl, Serial,
};
use crate::temporal::{Date, Time, Timestamp};
use crate::value_encoding::{
    lemma_plain_round_trip, plain_scalar, plain_width, scalar_bytes, ValueEncodingError,
};
use crate::wire::{le_from, lemma_byte_ranges, lemma_le_len, put_le, ByteCursor};

verus! {

/// Something that can be looked at as bytes.
pub trait KeyBytes {
    spec fn bytes(&self) -> Seq<u8>;

    fn as_bytes(&self) -> (r: &[u8])
        ensures
            r@ == self.bytes(),
    ;
}

impl<const N: usize> KeyBytes for [u8; N] {
    open spec fn bytes(&self) -> Seq<u8> {
        self@
    }

    fn as_bytes(&self) -> (r: &[u8]) {
        self.as_slice()
    }
}

impl KeyBytes for Vec<u8> {
    open spec fn bytes(&self) -> Seq<u8> {
        self@
    }

    fn as_bytes(&self) -> (r: &[u8]) {
        self.as_slice()
    }
}

/// The bytes that a value takes up in a key of fixed size. Values that are equal take up the
/// same bytes.
pub open spec fn fixed_bytes(s: Scalar) -> Seq<u8> {
    scalar_bytes(normal_scalar(s))
}

/// The value that such bytes of a column of type `ty` denote. Of a boolean, every byte but 1
/// is false.
pub open spec fn fixed_scalar(b: Seq<u8>, ty: DataType) -> Result<Scalar, ValueEncodingError> {
    match ty {
        DataType::Boolean => Ok(Scalar::Bool(b[0] == 1)),
        _ => plain_scalar(b, ty),
    }
}

/// Values of the type go into keys of fixed size.
pub open spec fn is_fixed_type(ty: DataType) -> bool {
    match ty {
        DataType::Boolean
        | DataType::Int16
        | DataType::Int32
        | DataType::Int64
        | DataType::Float32
        | DataType::Float64
        | DataType::Decimal
        | DataType::Date
        | DataType::Time
        | DataType::Timestamp
        | DataType::Serial => true,
        _ => false,
    }
}

/// The value is of one of the types whose values go into keys of fixed size.
pub open spec fn is_fixed_scalar(s: Scalar) -> bool {
    match s {
        Scalar::Bool(_)
        | Scalar::Int16(_)
        | Scalar::Int32(_)
        | Scalar::Int64(_)
        | Scalar::Float32(_)
        | Scalar::Float64(_)
        | Scalar::Decimal(_)
        | Scalar::Date(_)
        | Scalar::Time(_)
        | Scalar::Timestamp(_)
        | Scalar::Serial(_) => true,
        _ => false,
    }
}

/// Values of columns, as columns hand them out.
pub trait ScalarRef: Sized {
    /// The column value that `self` stands for.
    spec fn scalar(self) -> Scalar;

    /// The owned value.
    fn to_owned_scalar(self) -> (r: ScalarImpl)
        ensures
            r.model() == self.scalar(),
    ;
}

/// Values that can be encoded into hash keys.
///
/// Types of variable size are marked by this trait too, but only go into serialized keys:
/// they have no [`HashKeySerDe::fixed_type`], and neither of the two conversions takes them.
pub trait HashKeySerDe: ScalarRef {
    type S: KeyBytes;

    /// The column type of the values, if they go into keys of fixed size.
    spec fn fixed_type() -> Option<DataType>;

    fn serialize(self) -> (r: Self::S)
        requires
            Self::fixed_type() is Some,
        ensures
            r.bytes() == fixed_bytes(self.scalar()),
    ;

    fn deserialize(source: &mut ByteCursor) -> (r: Self)
        requires
            old(source).wf(),
            Self::fixed_type() matches Some(ty) && {
                &&& old(source).remaining().len() >= plain_width(ty)
                &&& fixed_scalar(old(source).remaining().take(plain_width(ty) as int), ty) is Ok
            },
        ensures
            final(source).wf(),
            ({
                let ty = Self::fixed_type()->0;
                let n = plain_width(ty) as int;
                &&& fixed_scalar(old(source).remaining().take(n), ty) == Ok::<
                    Scalar,
                    ValueEncodingError,
                >(r.scalar())
                &&& final(source).remaining() == old(source).remaining().skip(n)
            }),
    ;

    /// Reads as many bytes as the array has.
    fn read_fixed_size_bytes<const N: usize>(source: &mut ByteCursor) -> (r: [u8; N])
        requires
            old(source).wf(),
            old(source).remaining().len() >= N,
        ensures
            final(source).wf(),
            r@ == old(source).remaining().take(N as int),
            final(source).remaining() == old(source).remaining().skip(N as int),
    {
        let bytes = source.read_bytes(N);
        to_array(&bytes)
    }

    /// A type goes into keys of fixed size exactly when its values do, and then all its values
    /// take up the same number of bytes.
    proof fn width_law(self)
        ensures
            Self::fixed_type() is Some <==> is_fixed_scalar(self.scalar()),
            Self::fixed_type() matches Some(ty) ==> is_fixed_type(ty) && fixed_bytes(
                self.scalar(),
            ).len() == plain_width(ty),
    ;
}

/// The bytes of a vector that has as many as the array.
pub fn to_array<const N: usize>(bytes: &Vec<u8>) -> (r: [u8; N])
    requires
        bytes@.len() == N,
    ensures
        r@ == bytes@,
{
    let mut r: [u8; N] = [0u8;N];
    let mut i: usize = 0;
    while i < N
        invariant
            i <= N,
            bytes@.len() == N,
            r@.len() == N,
            forall|j: int| 0 <= j < i ==> r@[j] == bytes@[j],
        decreases N - i,
    {
        r[i] = bytes[i];
        i = i + 1;
    }
    assert(r@ =~= bytes@);
    r
}

/// The `N` lowest bytes of `v`, lowest first.
fn le_array<const N: usize>(v: u128) -> (r: [u8; N])
    ensures
        r@ == crate::wire::le_bytes(v as nat, N as nat),
{
    let mut buf: Vec<u8> = Vec::new();
    put_le(&mut buf, v, N);
    proof {
        lemma_le_len(v as nat, N as nat);
        assert(buf@ =~= crate::wire::le_bytes(v as nat, N as nat));
    }
    to_array(&buf)
}

/// Two little-endian numbers, one after the other.
fn le_pair<const N: usize>(a: u128, a_len: usize, b: u128, b_len: usize) -> (r: [u8; N])
    requires
        a_len + b_len == N,
    ensures
        r@ == crate::wire::le_bytes(a as nat, a_len as nat) + crate::wire::le_bytes(
            b as nat,
            b_len as nat,
        ),
{
    let mut buf: Vec<u8> = Vec::new();
    put_le(&mut buf, a, a_len);
    put_le(&mut buf, b, b_len);
    proof {
        lemma_le_len(a as nat, a_len as nat);
        lemma_le_len(b as nat, b_len as nat);
        assert(buf@ =~= crate::wire::le_bytes(a as nat, a_len as nat) + crate::wire::le_bytes(
            b as nat,
            b_len as nat,
        ));
    }
    to_array(&buf)
}

impl ScalarRef for bool {
    open spec fn scalar(self) -> Scalar {
        Scalar::Bool(self)
    }

    fn to_owned_scalar(self) -> (r: ScalarImpl) {
        ScalarImpl::Bool(self)
    }
}

impl HashKeySerDe for bool {
    type S = [u8; 1];

    open spec fn fixed_type() -> Option<DataType> {
        Some(DataType::Boolean)
    }

    fn serialize(self) -> (r: Self::S) {
        let r: [u8; 1] = if self {
            [1u8]
        } else {
            [0u8]
        };
        assert(r.bytes() =~= fixed_bytes(self.scalar()));
        r
    }

    fn deserialize(source: &mut ByteCursor) -> (r: Self) {
        let value = Self::read_fixed_size_bytes::<1>(source);
        value[0] == 1u8
    }

    proof fn width_law(self) {
    }
}

impl ScalarRef for i16 {
    open spec fn scalar(self) -> Scalar {
        Scalar::Int16(self)
    }

    fn to_owned_scalar(self) -> (r: ScalarImpl) {
        ScalarImpl::Int16(self)
    }
}

impl HashKeySerDe for i16 {
    type S = [u8; 2];

    open spec fn fixed_type() -> Option<DataType> {
        Some(DataType::Int16)
    }

    fn serialize(self) -> (r: Self::S) {
        let r = le_array::<2>((self as u16) as u128);
        assert(r.bytes() =~= fixed_bytes(self.scalar()));
        r
    }

    fn deserialize(source: &mut ByteCursor) -> (r: Self) {
        proof {
            lemma_byte_ranges();
        }
        let value = Self::read_fixed_size_bytes::<2>(source);
        (le_from(value.as_slice()) as u16) as i16
    }

    proof fn width_law(self) {
        lemma_le_len((self as u16) as nat, 2);
    }
}

impl ScalarRef for i32 {
    open spec fn scalar(self) -> Scalar {
        Scalar::Int32(self)
    }

    fn to_owned_scalar(self) -> (r: ScalarImpl) {
        ScalarImpl::Int32(self)
    }
}

impl HashKeySerDe for i32 {
    type S = [u8; 4];

    open spec fn fixed_type() -> Option<DataType> {
        Some(DataType::Int32)
    }

    fn serialize(self) -> (r: Self::S) {
        let r = le_array::<4>((self as u32) as u128);
        assert(r.bytes() =~= fixed_bytes(self.scalar()));
        r
    }

    fn deserialize(source: &mut ByteCursor) -> (r: Self) {
        proof {
            lemma_byte_ranges();
        }
        let value = Self::read_fixed_size_bytes::<4>(source);
        (le_from(value.as_slice()) as u32) as i32
    }

    proof fn width_law(self) {
        lemma_le_len((self as u32) as nat, 4);
    }
}

impl ScalarRef for i64 {
    open spec fn scalar(self) -> Scalar {
        Scalar::Int64(self)
    }

    fn to_owned_scalar(self) -> (r: ScalarImpl) {
        ScalarImpl::Int64(self)
    }
}

impl HashKeySerDe for i64 {
    type S = [u8; 8];

    open spec fn fixed_type() -> Option<DataType> {
        Some(DataType::Int64)
    }

    fn serialize(self) -> (r: Self::S) {
        let r = le_array::<8>((self as u64) as u128);
        assert(r.bytes() =~= fixed_bytes(self.scalar()));
        r
    }

    fn deserialize(source: &mut ByteCursor) -> (r: Self) {
        proof {
            lemma_byte_ranges();
        }
        let value = Self::read_fixed_size_bytes::<8>(source);
        (le_from(value.as_slice()) as u64) as i64
    }

    proof fn width_law(self) {
        lemma_le_len((self as u64) as nat, 8);
    }
}

impl ScalarRef for F32 {
    open spec fn scalar(self) -> Scalar {
        Scalar::Float32(self)
    }

    fn to_owned_scalar(self) -> (r: ScalarImpl) {
        ScalarImpl::Float32(self)
    }
}

impl HashKeySerDe for F32 {
    type S = [u8; 4];

    open spec fn fixed_type() -> Option<DataType> {
        Some(DataType::Float32)
    }

    fn serialize(self) -> (r: Self::S) {
        let r = le_array::<4>(self.normalized().bits as u128);
        assert(r.bytes() =~= fixed_bytes(self.scalar()));
        r
    }

    fn deserialize(source: &mut ByteCursor) -> (r: Self) {
        proof {
            lemma_byte_ranges();
        }
        let value = Self::read_fixed_size_bytes::<4>(source);
        F32 { bits: le_from(value.as_slice()) as u32 }
    }

    proof fn width_law(self) {
        lemma_le_len(self.normal_form().bits as nat, 4);
    }
}

impl ScalarRef for F64 {
    open spec fn scalar(self) -> Scalar {
        Scalar::Float64(self)
    }

    fn to_owned_scalar(self) -> (r: ScalarImpl) {
        ScalarImpl::Float64(self)
    }
}

impl HashKeySerDe for F64 {
    type S = [u8; 8];

    open spec fn fixed_type() -> Option<DataType> {
        Some(DataType::Float64)
    }

    fn serialize(self) -> (r: Self::S) {
        let r = le_array::<8>(self.normalized().bits as u128);
        assert(r.bytes() =~= fixed_bytes(self.scalar()));
        r
    }

    fn deserialize(source: &mut ByteCursor) -> (r: Self) {
        proof {
            lemma_byte_ranges();
        }
        let value = Self::read_fixed_size_bytes::<8>(source);
        F64 { bits: le_from(value.as_slice()) as u64 }
    }

    proof fn width_law(self) {
        lemma_le_len(self.normal_form().bits as nat, 8);
    }
}

impl ScalarRef for Decimal {
    open spec fn scalar(self) -> Scalar {
        Scalar::Decimal(self)
    }

    fn to_owned_scalar(self) -> (r: ScalarImpl) {
        ScalarImpl::Decimal(self)
    }
}

impl HashKeySerDe for Decimal {
    type S = [u8; 16];

    open spec fn fixed_type() -> Option<DataType> {
        Some(DataType::Decimal)
    }

    fn serialize(self) -> (r: Self::S) {
        let bytes = self.normalize().unordered_serialize();
        proof {
            crate::decimal::lemma_decimal_bytes_len(self.normal_form());
        }
        let r = to_array(&bytes);
        assert(r.bytes() =~= fixed_bytes(self.scalar()));
        r
    }

    fn deserialize(source: &mut ByteCursor) -> (r: Self) {
        let value = Self::read_fixed_size_bytes::<16>(source);
        match Decimal::unordered_deserialize(value.as_slice()) {
            Some(d) => d,
            None => unreached(),
        }
    }

    proof fn width_law(self) {
        crate::decimal::lemma_decimal_bytes_len(self.normal_form());
    }
}

impl ScalarRef for Date {
    open spec fn scalar(self) -> Scalar {
        Scalar::Date(self)
    }

    fn to_owned_scalar(self) -> (r: ScalarImpl) {
        ScalarImpl::Date(self)
    }
}

impl HashKeySerDe for Date {
    type S = [u8; 4];

    open spec fn fixed_type() -> Option<DataType> {
        Some(DataType::Date)
    }

    fn serialize(self) -> (r: Self::S) {
        let r = le_array::<4>((self.days as u32) as u128);
        assert(r.bytes() =~= fixed_bytes(self.scalar()));
        r
    }

    fn deserialize(source: &mut ByteCursor) -> (r: Self) {
        proof {
            lemma_byte_ranges();
        }
        let value = Self::read_fixed_size_bytes::<4>(source);
        let days: i32 = (le_from(value.as_slice()) as u32) as i32;
        match Date::with_days(days) {
            Some(d) => d,
            None => unreached(),
        }
    }

    proof fn width_law(self) {
        lemma_le_len((self.days as u32) as nat, 4);
    }
}

impl ScalarRef for Timestamp {
    open spec fn scalar(self) -> Scalar {
        Scalar::Timestamp(self)
    }

    fn to_owned_scalar(self) -> (r: ScalarImpl) {
        ScalarImpl::Timestamp(self)
    }
}

impl HashKeySerDe for Timestamp {
    type S = [u8; 12];

    open spec fn fixed_type() -> Option<DataType> {
        Some(DataType::Timestamp)
    }

    fn serialize(self) -> (r: Self::S) {
        let r = le_pair::<12>((self.secs as u64) as u128, 8, self.nsecs as u128, 4);
        assert(r.bytes() =~= fixed_bytes(self.scalar()));
        r
    }

    fn deserialize(source: &mut ByteCursor) -> (r: Self) {
        proof {
            lemma_byte_ranges();
        }
        let value = Self::read_fixed_size_bytes::<12>(source);
        let bytes = value.as_slice();
        let (low, high) = (slice_subrange(bytes, 0, 8), slice_subrange(bytes, 8, 12));
        assert(low@ =~= value@.take(8) && high@ =~= value@.skip(8));
        let secs: i64 = (le_from(low) as u64) as i64;
        let nsecs: u32 = le_from(high) as u32;
        match Timestamp::with_secs_nsecs(secs, nsecs) {
            Some(t) => t,
            None => unreached(),
        }
    }

    proof fn width_law(self) {
        lemma_le_len((self.secs as u64) as nat, 8);
        lemma_le_len(self.nsecs as nat, 4);
    }
}

impl ScalarRef for Time {
    open spec fn scalar(self) -> Scalar {
        Scalar::Time(self)
    }

    fn to_owned_scalar(self) -> (r: ScalarImpl) {
        ScalarImpl::Time(self)
    }
}

impl HashKeySerDe for Time {
    type S = [u8; 8];

    open spec fn fixed_type() -> Option<DataType> {
        Some(DataType::Time)
    }

    fn serialize(self) -> (r: Self::S) {
        let r = le_pair::<8>(self.secs as u128, 4, self.nano as u128, 4);
        assert(r.bytes() =~= fixed_bytes(self.scalar()));
        r
    }

    fn deserialize(source: &mut ByteCursor) -> (r: Self) {
        proof {
            lemma_byte_ranges();
        }
        let value = Self::read_fixed_size_bytes::<8>(source);
        let bytes = value.as_slice();
        let (low, high) = (slice_subrange(bytes, 0, 4), slice_subrange(bytes, 4, 8));
        assert(low@ =~= value@.take(4) && high@ =~= value@.skip(4));
        let secs: u32 = le_from(low) as u32;
        let nano: u32 = le_from(high) as u32;
        match Time::with_secs_nano(secs, nano) {
            Some(t) => t,
            None => unreached(),
        }
    }

    proof fn width_law(self) {
        lemma_le_len(self.secs as nat, 4);
        lemma_le_len(self.nano as nat, 4);
    }
}

impl ScalarRef for Serial {
    open spec fn scalar(self) -> Scalar {
        Scalar::Serial(self)
    }

    fn to_owned_scalar(self) -> (r: ScalarImpl) {
        ScalarImpl::Serial(self)
    }
}

impl HashKeySerDe for Serial {
    type S = [u8; 8];

    open spec fn fixed_type() -> Option<DataType> {
        Some(DataType::Serial)
    }

    fn serialize(self) -> (r: Self::S) {
        self.into_inner().serialize()
    }

    fn deserialize(source: &mut ByteCursor) -> (r: Self) {
        Serial { id: i64::deserialize(source) }
    }

    proof fn width_law(self) {
        lemma_le_len((self.id as u64) as nat, 8);
    }
}

/// Values that only go into serialized keys: those of variable size, and large ones.
pub trait SerializedOnlyRef: ScalarRef {
    /// The values do not go into keys of fixed size.
    proof fn serialized_only_law(self)
        ensures
            !is_fixed_scalar(self.scalar()),
    ;
}

/// Marks the values as part of keys. Neither conversion should ever be called: a key of fixed
/// size takes no such value.
impl<T: SerializedOnlyRef> HashKeySerDe for T {
    type S = Vec<u8>;

    open spec fn fixed_type() -> Option<DataType> {
        None
    }

    fn serialize(self) -> (r: Self::S) {
        unreached()
    }

    fn deserialize(source: &mut ByteCursor) -> (r: Self) {
        unreached()
    }

    proof fn width_law(self) {
        self.serialized_only_law();
    }
}

/// Strings only go into serialized keys.
impl<'a> ScalarRef for &'a str {
    open spec fn scalar(self) -> Scalar {
        Scalar::Utf8(self@)
    }

    fn to_owned_scalar(self) -> (r: ScalarImpl) {
        ScalarImpl::Utf8(self.to_owned())
    }
}

impl<'a> SerializedOnlyRef for &'a str {
    proof fn serialized_only_law(self) {
    }
}

/// Byte strings only go into serialized keys.
impl<'a> ScalarRef for &'a [u8] {
    open spec fn scalar(self) -> Scalar {
        Scalar::Bytea(self@)
    }

    fn to_owned_scalar(self) -> (r: ScalarImpl) {
        ScalarImpl::Bytea(clone_bytes(self))
    }
}

impl<'a> SerializedOnlyRef for &'a [u8] {
    proof fn serialized_only_law(self) {
    }
}

/// A borrowed 256-bit integer. It only goes into serialized keys.
pub struct Int256Ref<'a> {
    pub value: &'a Int256,
}

/// A borrowed document. It only goes into serialized keys.
pub struct JsonbRef<'a> {
    pub text: &'a Vec<u8>,
}

/// Borrowed fields of a struct. They only go into serialized keys.
pub struct StructRef<'a> {
    pub fields: &'a Vec<Datum>,
}

/// Borrowed elements of a list. They only go into serialized keys.
pub struct ListRef<'a> {
    pub values: &'a Vec<Datum>,
}

impl<'a> ScalarRef for Int256Ref<'a> {
    open spec fn scalar(self) -> Scalar {
        Scalar::Int256(self.value.bytes@)
    }

    fn to_owned_scalar(self) -> (r: ScalarImpl) {
        ScalarImpl::Int256(*self.value)
    }
}

impl<'a> SerializedOnlyRef for Int256Ref<'a> {
    proof fn serialized_only_law(self) {
    }
}

impl<'a> ScalarRef for JsonbRef<'a> {
    open spec fn scalar(self) -> Scalar {
        Scalar::Jsonb(self.text@)
    }

    fn to_owned_scalar(self) -> (r: ScalarImpl) {
        ScalarImpl::Jsonb(clone_bytes(self.text.as_slice()))
    }
}

impl<'a> SerializedOnlyRef for JsonbRef<'a> {
    proof fn serialized_only_law(self) {
    }
}

impl<'a> ScalarRef for StructRef<'a> {
    open spec fn scalar(self) -> Scalar {
        Scalar::Struct(row_model(self.fields@))
    }

    fn to_owned_scalar(self) -> (r: ScalarImpl) {
        ScalarImpl::Struct(clone_datums(self.fields))
    }
}

impl<'a> SerializedOnlyRef for StructRef<'a> {
    proof fn serialized_only_law(self) {
    }
}

impl<'a> ScalarRef for ListRef<'a> {
    open spec fn scalar(self) -> Scalar {
        Scalar::List(row_model(self.values@))
    }

    fn to_owned_scalar(self) -> (r: ScalarImpl) {
        ScalarImpl::List(clone_datums(self.values))
    }
}

impl<'a> SerializedOnlyRef for ListRef<'a> {
    proof fn serialized_only_law(self) {
    }
}

/// Reading the bytes of a value gives the value in its normal form, and so an equal value.
pub proof fn fixed_value_round_trip(s: Scalar, ty: DataType)
    requires
        is_fixed_type(ty),
        typed(Some(s), ty),
    ensures
        fixed_bytes(s).len() == plain_width(ty),
        fixed_scalar(fixed_bytes(s), ty) == Ok::<Scalar, ValueEncodingError>(normal_scalar(s)),
{
    if let Scalar::Decimal(d) = s {
        decimal_normalize_keeps_value(d);
    }
    lemma_plain_round_trip(normal_scalar(s), ty);
}

} // verus!
