use std::collections::hash_map::DefaultHasher;
use std::hash::{Hash, Hasher};

use streamkeys::decimal::Decimal;
use streamkeys::float::{F32, F64};
use streamkeys::scalar::{DataType, Datum, ScalarImpl};
use streamkeys::temporal::{Date, Time, Timestamp};
use streamkeys::value_encoding::{
    deserialize_datum, serialize_datum_into, RowDeserializer, ValueEncodingError,
};
use streamkeys::wire::ByteCursor;

fn bytes_of(datum: &Datum) -> Vec<u8> {
    let mut buf = Vec::new();
    serialize_datum_into(datum, &mut buf);
    buf
}

fn read(bytes: Vec<u8>, ty: DataType) -> Result<Datum, ValueEncodingError> {
    deserialize_datum(&mut ByteCursor::new(bytes), &ty)
}

#[test]
fn datums_come_back() {
    let cases: Vec<(Datum, DataType, Vec<u8>)> = vec![
        (None, DataType::Int32, vec![0]),
        (Some(ScalarImpl::Bool(true)), DataType::Boolean, vec![1, 1]),
        (Some(ScalarImpl::Int16(-1)), DataType::Int16, vec![1, 255, 255]),
        (Some(ScalarImpl::Int32(258)), DataType::Int32, vec![1, 2, 1, 0, 0]),
        (Some(ScalarImpl::Utf8("hé".to_string())), DataType::Varchar, vec![1, 3, 0, 0, 0, 104, 195, 169]),
        (
            Some(ScalarImpl::List(vec![Some(ScalarImpl::Int16(1)), None])),
            DataType::List(Box::new(DataType::Int16)),
            vec![1, 2, 0, 0, 0, 1, 1, 0, 0],
        ),
    ];
    for (datum, ty, bytes) in cases {
        assert_eq!(bytes_of(&datum), bytes);
        assert_eq!(read(bytes, ty), Ok(datum));
    }
}

#[test]
fn bad_bytes_are_refused() {
    assert_eq!(read(vec![], DataType::Int16), Err(ValueEncodingError::UnexpectedEnd));
    assert_eq!(read(vec![1, 0], DataType::Int16), Err(ValueEncodingError::UnexpectedEnd));
    assert_eq!(read(vec![2, 0, 0], DataType::Int16), Err(ValueEncodingError::InvalidTag(2)));
    assert_eq!(read(vec![1, 7], DataType::Boolean), Err(ValueEncodingError::InvalidBool(7)));
    assert_eq!(
        read(vec![1, 1, 0, 0, 0, 255], DataType::Varchar),
        Err(ValueEncodingError::InvalidUtf8)
    );
    assert_eq!(
        read(vec![1, 255, 255, 255, 127], DataType::Date),
        Err(ValueEncodingError::InvalidDate)
    );
    assert_eq!(
        read(vec![1, 255, 255, 255, 127, 0, 0, 0, 0], DataType::Time),
        Err(ValueEncodingError::InvalidTime)
    );
    assert_eq!(
        read(vec![1, 255, 255, 255, 255, 255, 255, 255, 127, 0, 0, 0, 0], DataType::Timestamp),
        Err(ValueEncodingError::InvalidTimestamp)
    );
    let mut bad_decimal = vec![1];
    bad_decimal.extend([255u8; 16]);
    assert_eq!(read(bad_decimal, DataType::Decimal), Err(ValueEncodingError::InvalidDecimal));
}

#[test]
fn rows_come_back() {
    let types = [DataType::Int16, DataType::Boolean];
    let row = RowDeserializer::new(&types).deserialize(&[1, 5, 0, 0, 99]).unwrap();
    assert_eq!(row.datums, vec![Some(ScalarImpl::Int16(5)), None]);
    assert!(RowDeserializer::new(&types).deserialize(&[1, 5, 0]).is_err());
}

#[test]
fn decimals_have_one_normal_form() {
    let a = Decimal::try_new(false, 12, 1).unwrap();
    let b = Decimal::try_new(false, 1200, 3).unwrap();
    assert_eq!(a, b);
    assert_eq!(a.normalize().unordered_serialize(), b.normalize().unordered_serialize());
    assert_ne!(a.unordered_serialize(), b.unordered_serialize());
    assert_ne!(a, Decimal::try_new(true, 12, 1).unwrap());
    for d in [a, b, Decimal::NaN, Decimal::PositiveInf, Decimal::NegativeInf] {
        assert_eq!(Decimal::unordered_deserialize(&d.unordered_serialize()), Some(d));
    }
    assert_eq!(Decimal::try_new(false, 1, 29), None);
    assert_eq!(Decimal::try_new(false, 1 << 96, 0), None);
}

#[test]
fn floats_compare_by_value() {
    assert_eq!(F32 { bits: 0 }, F32 { bits: 0x8000_0000 });
    assert_eq!(F32 { bits: 0x7fc0_0000 }, F32 { bits: 0xffff_ffff });
    assert_ne!(F32 { bits: 1 }, F32 { bits: 2 });
    assert_eq!(F64 { bits: 0x8000_0000_0000_0000 }.normalized().bits, 0);
    assert_eq!(F64 { bits: (2.5f64).to_bits() }.normalized().bits, (2.5f64).to_bits());
    assert_eq!(F64 { bits: 0xffff_ffff_ffff_ffff }.normalized().bits, f64::NAN.to_bits());
}

#[test]
fn days_have_limits() {
    assert!(Date::with_days(-95_746_129).is_some());
    assert!(Date::with_days(-95_746_130).is_none());
    assert!(Date::with_days(95_745_399).is_some());
    assert!(Date::with_days(95_745_400).is_none());
    assert!(Date::with_days(i32::MAX).is_none());
    assert!(Date::with_days(i32::MIN).is_none());
    assert_eq!(Date::with_days(1).unwrap().days, 1);
}

#[test]
fn times_have_limits() {
    assert!(Time::with_secs_nano(86_399, 999_999_999).is_some());
    assert!(Time::with_secs_nano(86_400, 0).is_none());
    // A leap second only follows the last second of a minute.
    assert!(Time::with_secs_nano(86_399, 1_999_999_999).is_some());
    assert!(Time::with_secs_nano(86_398, 1_000_000_000).is_none());
    assert!(Time::with_secs_nano(86_399, 2_000_000_000).is_none());
    let time = Time::with_secs_nano(59, 1_500_000_000).unwrap();
    assert_eq!((time.secs, time.nano), (59, 1_500_000_000));
}

#[test]
fn timestamps_have_limits() {
    let epoch: i64 = 719_163;
    let last: i64 = (95_745_399 - epoch) * 86_400 + 86_399;
    let first: i64 = (-95_746_129 - epoch) * 86_400;
    assert!(Timestamp::with_secs_nsecs(last, 999_999_999).is_some());
    assert!(Timestamp::with_secs_nsecs(last + 1, 0).is_none());
    assert!(Timestamp::with_secs_nsecs(first, 0).is_some());
    assert!(Timestamp::with_secs_nsecs(first - 1, 0).is_none());
    assert!(Timestamp::with_secs_nsecs(-1, 1_000_000_000).is_some());
    assert!(Timestamp::with_secs_nsecs(0, 1_000_000_000).is_none());
    assert!(Timestamp::with_secs_nsecs(0, 2_000_000_000).is_none());
    assert!(Timestamp::with_secs_nsecs(i64::MAX, 0).is_none());
    assert!(Timestamp::with_secs_nsecs(i64::MIN, 0).is_none());
    let stamp = Timestamp::with_secs_nsecs(-61, 1_500_000_000).unwrap();
    assert_eq!((stamp.secs, stamp.nsecs), (-61, 1_500_000_000));
}

fn hash_of<T: Hash>(value: T) -> u64 {
    let mut state = DefaultHasher::new();
    value.hash(&mut state);
    state.finish()
}

#[test]
fn equal_numbers_are_hashed_alike() {
    assert_eq!(hash_of(F32 { bits: 0 }), hash_of(F32 { bits: 1 << 31 }));
    assert_eq!(hash_of(F64 { bits: 0 }), hash_of(F64 { bits: 1 << 63 }));
    assert_ne!(hash_of(F64 { bits: 0 }), hash_of(F64 { bits: 1 }));
    let decimal = |m, scale| Decimal::try_new(false, m, scale).unwrap();
    assert_eq!(hash_of(decimal(12, 1)), hash_of(decimal(1200, 3)));
    assert_ne!(hash_of(decimal(12, 1)), hash_of(decimal(12, 2)));
    assert_ne!(hash_of(Decimal::NaN), hash_of(Decimal::PositiveInf));
    assert_ne!(hash_of(Decimal::NegativeInf), hash_of(decimal(0, 0)));
}
