use std::collections::HashMap;
use std::hash::{BuildHasher, Hash, Hasher};

use streamkeys::array::{
    ArrayBuilderImpl, ArrayImpl, BoolArray, DateArray, DecimalArray, F32Array, F64Array, I16Array,
    I32Array, I32ArrayBuilder, I64Array, TimeArray, TimestampArray, Utf8Array,
};
use streamkeys::data_chunk::DataChunk;
use streamkeys::decimal::Decimal;
use streamkeys::float::{F32, F64};
use streamkeys::hash_code::{
    Crc32HashCode, PrecomputedBuildHasher, PrecomputedHasher, XxHash64Builder, XxHash64HashCode,
};
use streamkeys::hash_key::{
    ArrayError, FixedSizeKeyDeserializer, FixedSizeKeySerializer, HashKey, HashKeyDeserializer,
    HashKeySerializer, Key128, Key16, Key256, Key32, Key64, Key8, KeySerialized, SerializedKey,
    SerializedKeySerializer,
};
use streamkeys::hash_key_serde::{HashKeySerDe, JsonbRef, KeyBytes, ListRef, StructRef};
use streamkeys::null_bitmap::{EstimateSize, HeapNullBitmap, NullBitmap, StackNullBitmap};
use streamkeys::scalar::{DataType, Datum, Int256, OwnedRow, ScalarImpl, Serial};
use streamkeys::temporal::{Date, Time, Timestamp};
use streamkeys::value_encoding::ValueEncodingError;
use streamkeys::wire::ByteCursor;

/// A small generator of numbers.
struct Rand(u64);

impl Rand {
    fn next(&mut self) -> u64 {
        self.0 = self.0.wrapping_add(0x9e37_79b9_7f4a_7c15);
        let mut z = self.0;
        z = (z ^ (z >> 30)).wrapping_mul(0xbf58_476d_1ce4_e5b9);
        z = (z ^ (z >> 27)).wrapping_mul(0x94d0_49bb_1331_11eb);
        z ^ (z >> 31)
    }
}

fn rand_array<T>(capacity: usize, seed: u64, value: impl Fn(&mut Rand) -> T) -> Vec<Option<T>> {
    let mut rand = Rand(seed);
    (0..capacity)
        .map(|_| {
            let is_null = rand.next() % 2 == 0;
            let v = value(&mut rand);
            if is_null {
                None
            } else {
                Some(v)
            }
        })
        .collect()
}

fn generate_random_data_chunk() -> (DataChunk, Vec<DataType>) {
    let capacity = 128;
    let seed = 10244021u64;
    let columns = vec![
        ArrayImpl::Bool(BoolArray { values: rand_array(capacity, seed, |r| r.next() % 2 == 1) }),
        ArrayImpl::Int16(I16Array { values: rand_array(capacity, seed + 1, |r| r.next() as i16) }),
        ArrayImpl::Int32(I32Array { values: rand_array(capacity, seed + 2, |r| r.next() as i32) }),
        ArrayImpl::Int64(I64Array { values: rand_array(capacity, seed + 3, |r| r.next() as i64) }),
        ArrayImpl::Float32(F32Array {
            values: rand_array(capacity, seed + 4, |r| F32 { bits: r.next() as u32 }),
        }),
        ArrayImpl::Float64(F64Array {
            values: rand_array(capacity, seed + 5, |r| F64 { bits: r.next() }),
        }),
        ArrayImpl::Decimal(DecimalArray {
            values: rand_array(capacity, seed + 6, |r| {
                Decimal::try_new(r.next() % 2 == 0, r.next() as u128, (r.next() % 10) as u8).unwrap()
            }),
        }),
        ArrayImpl::Utf8(Utf8Array {
            values: rand_array(capacity, seed + 7, |r| {
                let len = 1 + r.next() % 10;
                (0..len).map(|_| (b'a' + (r.next() % 26) as u8) as char).collect()
            }),
        }),
        ArrayImpl::Date(DateArray {
            values: rand_array(capacity, seed + 8, |r| {
                Date::with_days((r.next() % 1_000_000) as i32).unwrap()
            }),
        }),
        ArrayImpl::Time(TimeArray {
            values: rand_array(capacity, seed + 9, |r| {
                Time::with_secs_nano((r.next() % 86_400) as u32, (r.next() % 1_000_000_000) as u32)
                    .unwrap()
            }),
        }),
        ArrayImpl::Timestamp(TimestampArray {
            values: rand_array(capacity, seed + 10, |r| {
                Timestamp::with_secs_nsecs(
                    (r.next() % 10_000_000_000) as i64,
                    (r.next() % 1_000_000_000) as u32,
                )
                .unwrap()
            }),
        }),
    ];
    let types = vec![
        DataType::Boolean,
        DataType::Int16,
        DataType::Int32,
        DataType::Int64,
        DataType::Float32,
        DataType::Float64,
        DataType::Decimal,
        DataType::Varchar,
        DataType::Date,
        DataType::Time,
        DataType::Timestamp,
    ];
    (DataChunk::new(columns, capacity), types)
}

/// A key as hash maps take it: it writes its code, and nothing else.
struct MapKey<K>(K);

impl<K: HashKey> PartialEq for MapKey<K> {
    fn eq(&self, other: &Self) -> bool {
        self.0 == other.0
    }
}

impl<K: HashKey> Eq for MapKey<K> {}

fn code_of<K: HashKey>(key: &K) -> u64 {
    let mut hasher = PrecomputedBuildHasher.build_hasher();
    key.hash(&mut hasher);
    hasher.finish()
}

impl<K: HashKey> Hash for MapKey<K> {
    fn hash<H: Hasher>(&self, state: &mut H) {
        state.write_u64(code_of(&self.0))
    }
}

struct MapHasher(PrecomputedHasher);

impl Hasher for MapHasher {
    fn finish(&self) -> u64 {
        self.0.finish()
    }

    fn write_u64(&mut self, i: u64) {
        assert_eq!(self.0.finish(), 0);
        self.0.write_u64(i)
    }

    fn write(&mut self, _bytes: &[u8]) {
        unreachable!("keys write their code with write_u64")
    }
}

#[derive(Default)]
struct MapBuildHasher;

impl BuildHasher for MapBuildHasher {
    type Hasher = MapHasher;

    fn build_hasher(&self) -> MapHasher {
        MapHasher(PrecomputedBuildHasher.build_hasher())
    }
}

fn do_test_serialize<K: HashKey>(column_indexes: &[usize], data: &DataChunk) {
    let mut actual_row_id_mapping = HashMap::<usize, Vec<usize>>::with_capacity(100);
    {
        let mut fast_hash_map =
            HashMap::<MapKey<K>, Vec<usize>, MapBuildHasher>::with_capacity_and_hasher(
                100,
                MapBuildHasher,
            );
        let keys = K::build(column_indexes, data).expect("Failed to build hash keys");
        for (row_id, key) in keys.into_iter().enumerate() {
            let row_ids = fast_hash_map.entry(MapKey(key)).or_default();
            row_ids.push(row_id);
        }
        for row_ids in fast_hash_map.values() {
            for row_id in row_ids {
                actual_row_id_mapping.insert(*row_id, row_ids.clone());
            }
        }
    }

    let mut expected_row_id_mapping = HashMap::<usize, Vec<usize>>::with_capacity(100);
    {
        let mut groups: Vec<(Vec<Datum>, Vec<usize>)> = Vec::new();
        for row_idx in 0..data.capacity() {
            let row = column_indexes
                .iter()
                .map(|col_idx| data.column_at(*col_idx).datum_at(row_idx))
                .collect::<Vec<Datum>>();
            match groups.iter_mut().find(|(r, _)| *r == row) {
                Some((_, row_ids)) => row_ids.push(row_idx),
                None => groups.push((row, vec![row_idx])),
            }
        }
        for (_, row_ids) in groups {
            for row_id in &row_ids {
                expected_row_id_mapping.insert(*row_id, row_ids.clone());
            }
        }
    }

    assert_eq!(expected_row_id_mapping, actual_row_id_mapping);
}

fn do_test_deserialize<K: HashKey>(column_indexes: &[usize], data: &DataChunk, types: Vec<DataType>) {
    let keys = K::build(column_indexes, data).expect("Failed to build hash keys");

    let mut array_builders = column_indexes
        .iter()
        .map(|idx| data.columns()[*idx].create_builder(1024))
        .collect::<Vec<ArrayBuilderImpl>>();
    let mut types = types.into_iter().map(Some).collect::<Vec<_>>();
    let key_types: Vec<DataType> =
        column_indexes.iter().map(|idx| types[*idx].take().unwrap()).collect();

    keys.into_iter()
        .try_for_each(|k| k.deserialize_to_builders(&mut array_builders[..], &key_types))
        .expect("Failed to deserialize!");

    let result_arrays = array_builders
        .into_iter()
        .map(|array_builder| array_builder.finish())
        .collect::<Vec<ArrayImpl>>();

    for (ret_idx, col_idx) in column_indexes.iter().enumerate() {
        assert_eq!(&data.columns()[*col_idx], &result_arrays[ret_idx]);
    }
}

fn do_test<K: HashKey>(column_indexes: Vec<usize>, data_gen: fn() -> (DataChunk, Vec<DataType>)) {
    let (data, types) = data_gen();
    do_test_serialize::<K>(&column_indexes, &data);
    do_test_deserialize::<K>(&column_indexes, &data, types);
}

#[test]
fn test_two_bytes_hash_key() {
    do_test::<Key16>(vec![1], generate_random_data_chunk);
}

#[test]
fn test_four_bytes_hash_key() {
    do_test::<Key32>(vec![0, 1], generate_random_data_chunk);
    do_test::<Key32>(vec![2], generate_random_data_chunk);
    do_test::<Key32>(vec![4], generate_random_data_chunk);
}

#[test]
fn test_eight_bytes_hash_key() {
    do_test::<Key64>(vec![1, 2], generate_random_data_chunk);
    do_test::<Key64>(vec![0, 1, 2], generate_random_data_chunk);
    do_test::<Key64>(vec![3], generate_random_data_chunk);
    do_test::<Key64>(vec![5], generate_random_data_chunk);
}

#[test]
fn test_128_bits_hash_key() {
    do_test::<Key128>(vec![3, 5], generate_random_data_chunk);
    do_test::<Key128>(vec![6], generate_random_data_chunk);
}

#[test]
fn test_256_bits_hash_key() {
    do_test::<Key256>(vec![3, 5, 6], generate_random_data_chunk);
    do_test::<Key256>(vec![3, 6], generate_random_data_chunk);
}

#[test]
fn test_var_length_hash_key() {
    do_test::<KeySerialized>(vec![0, 7], generate_random_data_chunk);
}

/// The decimal that the text denotes.
fn decimal(text: &str) -> Decimal {
    let (whole, fraction) = text.split_once('.').unwrap();
    let digits: String = format!("{whole}{fraction}");
    Decimal::try_new(false, digits.parse().unwrap(), fraction.len() as u8).unwrap()
}

fn generate_decimal_test_data() -> (DataChunk, Vec<DataType>) {
    let columns = vec![ArrayImpl::Decimal(DecimalArray {
        values: vec![
            Some(decimal("1.2")),
            None,
            Some(decimal("1.200")),
            Some(decimal("0.00")),
            Some(decimal("0.0")),
        ],
    })];
    let types = vec![DataType::Decimal];
    (DataChunk::new(columns, 5), types)
}

#[test]
fn test_decimal_hash_key_serialization() {
    do_test::<Key128>(vec![0], generate_decimal_test_data);
}

/// A chunk of 32-bit integers, written down row by row, with a dot for null.
fn from_pretty(text: &str) -> DataChunk {
    let mut lines = text.lines();
    let header: Vec<&str> = lines.next().unwrap().split_ascii_whitespace().collect();
    assert!(header.iter().all(|t| *t == "i"));
    let mut columns: Vec<Vec<Option<i32>>> = header.iter().map(|_| Vec::new()).collect();
    let mut capacity = 0;
    for line in lines {
        for (column, item) in columns.iter_mut().zip(line.split_ascii_whitespace()) {
            column.push(if item == "." { None } else { Some(item.parse().unwrap()) });
        }
        capacity += 1;
    }
    let columns =
        columns.into_iter().map(|values| ArrayImpl::Int32(I32Array { values })).collect();
    DataChunk::new(columns, capacity)
}

// A row <None, Some(2)> is serialized and restored losslessly.
#[test]
fn test_simple_hash_key_nullable_serde() {
    let keys = Key64::<StackNullBitmap>::build(
        &[0, 1],
        &from_pretty(
            "i i
                 1 .
                 . 2",
        ),
    )
    .unwrap();

    let mut array_builders = [0, 1]
        .iter()
        .map(|_| ArrayBuilderImpl::Int32(I32ArrayBuilder::new(2)))
        .collect::<Vec<_>>();

    keys.into_iter().for_each(|k: Key64| {
        k.deserialize_to_builders(&mut array_builders[..], &[DataType::Int32, DataType::Int32])
            .unwrap()
    });

    let array = array_builders.pop().unwrap().finish();
    let i32_vec = (0..array.len())
        .map(|i| {
            array.datum_at(i).map(|s| match s {
                ScalarImpl::Int32(v) => v,
                other => panic!("{other:?} is no 32-bit integer"),
            })
        })
        .collect::<Vec<_>>();
    assert_eq!(i32_vec, vec![None, Some(2)]);
}

fn row_of(key: &Key64, types: &[DataType]) -> OwnedRow {
    key.deserialize(types).unwrap()
}

#[test]
fn fixed_key_reads_back_its_row() {
    let chunk = from_pretty("i i\n 1 .\n . 2");
    let keys = Key64::<StackNullBitmap>::build(&[0, 1], &chunk).unwrap();
    let types = [DataType::Int32, DataType::Int32];
    assert_eq!(row_of(&keys[0], &types).datums, vec![Some(ScalarImpl::Int32(1)), None]);
    assert_eq!(row_of(&keys[1], &types).datums, vec![None, Some(ScalarImpl::Int32(2))]);
}

#[test]
fn fixed_key_gives_numbers_in_their_normal_form() {
    let chunk = DataChunk::new(
        vec![
            ArrayImpl::Float32(F32Array { values: vec![Some(F32 { bits: 0x8000_0000 })] }),
            ArrayImpl::Decimal(DecimalArray { values: vec![Some(decimal("1.200"))] }),
        ],
        1,
    );
    let keys = Key256::<StackNullBitmap>::build(&[0, 1], &chunk).unwrap();
    let row = keys[0].deserialize(&[DataType::Float32, DataType::Decimal]).unwrap();
    match (&row.datums[0], &row.datums[1]) {
        (Some(ScalarImpl::Float32(f)), Some(ScalarImpl::Decimal(Decimal::Normalized(d)))) => {
            assert_eq!(f.bits, 0);
            assert_eq!((d.mantissa, d.scale), (12, 1));
        }
        other => panic!("{other:?}"),
    }
}

#[test]
fn more_than_eight_columns_are_refused() {
    let chunk = DataChunk::new(vec![ArrayImpl::Bool(BoolArray { values: vec![Some(true)] })], 1);
    let keys = Key8::<StackNullBitmap>::build(&[0], &chunk).unwrap();
    let mut serializer =
        FixedSizeKeySerializer::<8, StackNullBitmap>::from_hash_code(XxHash64HashCode::from(7), 0);
    for _ in 0..8 {
        serializer.append(Some(true));
    }
    assert_eq!(serializer.left_size(), 0);
    let wide = serializer.into_hash_key();
    let types: Vec<DataType> = (0..9).map(|_| DataType::Boolean).collect();
    assert_eq!(wide.deserialize(&types), Err(ArrayError::ColumnLimit));
    assert!(wide.deserialize(&types[..8]).is_ok());

    let mut builders: Vec<ArrayBuilderImpl> =
        types.iter().map(|ty| ty.create_array_builder(1)).collect();
    assert_eq!(wide.deserialize_to_builders(&mut builders, &types), Err(ArrayError::ColumnLimit));
    let lengths: Vec<usize> = builders.into_iter().map(|b| b.finish().len()).collect();
    assert_eq!(lengths, vec![1, 1, 1, 1, 1, 1, 1, 1, 0]);
    assert_eq!(keys.len(), 1);
}

#[test]
fn deserializer_hands_out_column_by_column() {
    let mut serializer =
        FixedSizeKeySerializer::<8, StackNullBitmap>::from_hash_code(XxHash64HashCode::from(7), 0);
    serializer.append(Some(-2i16));
    serializer.append(None::<i32>);
    serializer.append(Some(5i32));
    assert_eq!(serializer.left_size(), 2);
    let key = serializer.into_hash_key();
    let mut deserializer = FixedSizeKeyDeserializer::<8, StackNullBitmap>::from_hash_key(key);
    assert_eq!(deserializer.deserialize::<i16>(), Ok(Some(-2i16)));
    assert_eq!(deserializer.deserialize::<i32>(), Ok(None));
    assert_eq!(deserializer.deserialize::<i32>(), Ok(Some(5i32)));
}

#[test]
fn equal_rows_have_equal_keys_and_codes() {
    let (chunk, _) = generate_decimal_test_data();
    let keys = Key128::<StackNullBitmap>::build(&[0], &chunk).unwrap();
    assert!(keys[0] == keys[2]);
    assert!(keys[3] == keys[4]);
    assert!(keys[0] != keys[3]);
    assert!(keys[1] == keys[1].clone());
    assert_eq!(code_of(&keys[0]), code_of(&keys[2]));
    assert_eq!(code_of(&keys[3]), code_of(&keys[4]));
    assert_ne!(code_of(&keys[0]), code_of(&keys[3]));
}

#[test]
fn null_differs_from_zero_in_fixed_keys() {
    let chunk = from_pretty("i\n 0\n .");
    let keys = Key32::<StackNullBitmap>::build(&[0], &chunk).unwrap();
    assert!(keys[0] != keys[1]);
    assert!(!keys[0].has_null());
    assert!(keys[1].has_null());
    assert!(keys[1].null_bitmap().contains(0));
}

#[test]
fn serialized_keys_keep_values_as_they_are() {
    let chunk = DataChunk::new(
        vec![
            ArrayImpl::Decimal(DecimalArray {
                values: vec![Some(decimal("1.2")), Some(decimal("1.200")), None],
            }),
            ArrayImpl::Utf8(Utf8Array {
                values: vec![Some("a".to_string()), Some("a".to_string()), Some("".to_string())],
            }),
        ],
        3,
    );
    let keys = KeySerialized::<HeapNullBitmap>::build(&[0, 1], &chunk).unwrap();
    assert!(keys[0] != keys[1]);
    assert!(keys[2].has_null());
    assert!(!keys[1].has_null());
    let row = keys[1].deserialize(&[DataType::Decimal, DataType::Varchar]).unwrap();
    match &row.datums[0] {
        Some(ScalarImpl::Decimal(Decimal::Normalized(d))) => assert_eq!((d.mantissa, d.scale), (1200, 3)),
        other => panic!("{other:?}"),
    }
    assert_eq!(row.datums[1], Some(ScalarImpl::Utf8("a".to_string())));
    let row = keys[2].deserialize(&[DataType::Decimal, DataType::Varchar]).unwrap();
    assert_eq!(row.datums, vec![None, Some(ScalarImpl::Utf8(String::new()))]);
}

#[test]
fn serialized_keys_refuse_other_types() {
    let chunk = from_pretty("i\n 7");
    let keys = KeySerialized::<StackNullBitmap>::build(&[0], &chunk).unwrap();
    assert_eq!(
        keys[0].deserialize(&[DataType::Int64]),
        Err(ArrayError::Internal(ValueEncodingError::UnexpectedEnd))
    );
    let mut builders = vec![DataType::Int64.create_array_builder(1)];
    assert_eq!(
        keys[0].deserialize_to_builders(&mut builders, &[DataType::Int64]),
        Err(ArrayError::Internal(ValueEncodingError::UnexpectedEnd))
    );
    assert_eq!(builders.pop().unwrap().finish().len(), 0);
}

#[test]
fn serialized_keys_take_every_type() {
    let mut serializer =
        SerializedKeySerializer::<StackNullBitmap>::from_hash_code(XxHash64HashCode::from(1), 64);
    let nested: Vec<Datum> = vec![Some(ScalarImpl::Int32(1)), None];
    let document = b"{}".to_vec();
    let wide = Int256 { bytes: [9; 32] };
    serializer.append(Some("text"));
    serializer.append(Some(&[1u8, 0, 2][..]));
    serializer.append(Some(JsonbRef { text: &document }));
    serializer.append(Some(streamkeys::hash_key_serde::Int256Ref { value: &wide }));
    serializer.append(Some(StructRef { fields: &nested }));
    serializer.append(Some(ListRef { values: &nested }));
    serializer.append(Some(Serial { id: -1 }));
    let key: SerializedKey = serializer.into_hash_key();
    let types = [
        DataType::Varchar,
        DataType::Bytea,
        DataType::Jsonb,
        DataType::Int256,
        DataType::Struct(vec![DataType::Int32, DataType::Boolean]),
        DataType::List(Box::new(DataType::Int32)),
        DataType::Serial,
    ];
    let row = key.deserialize(&types).unwrap();
    assert_eq!(
        row.datums,
        vec![
            Some(ScalarImpl::Utf8("text".to_string())),
            Some(ScalarImpl::Bytea(vec![1, 0, 2])),
            Some(ScalarImpl::Jsonb(document)),
            Some(ScalarImpl::Int256(wide)),
            Some(ScalarImpl::Struct(vec![Some(ScalarImpl::Int32(1)), None])),
            Some(ScalarImpl::List(vec![Some(ScalarImpl::Int32(1)), None])),
            Some(ScalarImpl::Serial(Serial { id: -1 })),
        ]
    );
    assert_eq!(row.size(), 7);
}

#[test]
fn codes_given_beforehand_are_kept() {
    let chunk = from_pretty("i\n 7\n 8");
    let codes = vec![XxHash64HashCode::from(41), XxHash64HashCode::from(42)];
    let keys = Key32::<StackNullBitmap>::build_from_hash_code(&[0], &chunk, codes);
    assert_eq!(code_of(&keys[0]), 41);
    assert_eq!(code_of(&keys[1]), 42);
}

#[test]
fn sizes_of_keys() {
    let chunk = from_pretty("i i\n 7 .");
    let fixed = Key64::<StackNullBitmap>::build(&[0, 1], &chunk).unwrap();
    assert_eq!(fixed[0].estimated_heap_size(), 0);
    let fixed = Key64::<HeapNullBitmap>::build(&[0, 1], &chunk).unwrap();
    assert_eq!(fixed[0].estimated_heap_size(), 4);
    let serialized = KeySerialized::<HeapNullBitmap>::build(&[0, 1], &chunk).unwrap();
    assert_eq!(serialized[0].estimated_heap_size(), 6 + 4);
    assert_eq!(chunk.estimate_value_encoding_size(&[0, 1]), 6);
    let empty = DataChunk::new(vec![], 0);
    assert_eq!(empty.estimate_value_encoding_size(&[]), 0);
}

#[test]
fn hash_codes() {
    assert_eq!(XxHash64HashCode::from(9).value(), 9);
    assert_eq!(Crc32HashCode::from(9).value(), 9);
    assert_eq!(Crc32HashCode::default().value(), 0);
    assert!(XxHash64HashCode::from(9) == XxHash64HashCode::from(9));
    assert!(XxHash64HashCode::from(9) != XxHash64HashCode::from(8));
    // The code of nothing, as the reference gives it.
    assert_eq!(XxHash64Builder.hash_bytes(&[]).value(), 0xef46_db37_51d8_e999);
    assert_ne!(
        XxHash64Builder.hash_bytes(&[1]).value(),
        XxHash64Builder.hash_bytes(&[2]).value()
    );
}

#[test]
fn rows_hash_by_value() {
    let chunk = DataChunk::new(
        vec![ArrayImpl::Float64(F64Array {
            values: vec![
                Some(F64 { bits: 0 }),
                Some(F64 { bits: 0x8000_0000_0000_0000 }),
                Some(F64 { bits: 0x7ff8_0000_0000_0001 }),
                Some(F64 { bits: 0xffff_0000_0000_0000 }),
                None,
            ],
        })],
        5,
    );
    let codes: Vec<u64> =
        chunk.get_hash_values(&[0], XxHash64Builder).into_iter().map(|c| c.value()).collect();
    assert_eq!(codes[0], codes[1]);
    assert_eq!(codes[2], codes[3]);
    assert_ne!(codes[0], codes[2]);
    assert_ne!(codes[0], codes[4]);
    assert_eq!(codes[4], XxHash64Builder.hash_bytes(&[0]).value());
}

#[test]
fn values_in_fixed_keys_are_little_endian() {
    assert_eq!(true.serialize().as_bytes(), &[1]);
    assert_eq!((-2i16).serialize().as_bytes(), &[0xfe, 0xff]);
    assert_eq!(0x0102_0304i32.serialize().as_bytes(), &[4, 3, 2, 1]);
    assert_eq!(1i64.serialize().as_bytes(), &[1, 0, 0, 0, 0, 0, 0, 0]);
    assert_eq!(Serial { id: 1 }.serialize().as_bytes(), &[1, 0, 0, 0, 0, 0, 0, 0]);
    assert_eq!(Date::with_days(1).unwrap().serialize().as_bytes(), &[1, 0, 0, 0]);
    assert_eq!(
        Time::with_secs_nano(1, 2).unwrap().serialize().as_bytes(),
        &[1, 0, 0, 0, 2, 0, 0, 0]
    );
    assert_eq!(
        Timestamp::with_secs_nsecs(-1, 2).unwrap().serialize().as_bytes(),
        &[255, 255, 255, 255, 255, 255, 255, 255, 2, 0, 0, 0]
    );
    assert_eq!(F32 { bits: 0x8000_0000 }.serialize().as_bytes(), &[0, 0, 0, 0]);
    assert_eq!(
        decimal("1.200").serialize().as_bytes(),
        decimal("1.2").serialize().as_bytes()
    );
    let mut source = ByteCursor::new(vec![7, 1, 0xfe, 0xff, 9]);
    assert!(!bool::deserialize(&mut source));
    assert!(bool::deserialize(&mut source));
    assert_eq!(i16::deserialize(&mut source), -2);
    assert_eq!(source.remaining_len(), 1);
}

#[test]
fn stack_bitmap() {
    let mut a = StackNullBitmap::empty();
    assert!(a.is_empty());
    a.set_true(3);
    a.set_true(63);
    assert!(!a.is_empty());
    assert!(a.contains(3) && a.contains(63) && !a.contains(4));
    let b = StackNullBitmap::from_bool_vec(vec![false, false, false, true]);
    assert!(b.contains(3) && !b.contains(0));
    assert!(b.is_subset(&a) && !a.is_subset(&b));
    assert!(a == a.clone() && a != b);
    assert_eq!(a.estimated_heap_size(), 0);
}

#[test]
fn heap_bitmap() {
    let mut a = HeapNullBitmap::empty();
    assert!(a.is_empty());
    a.set_true(3);
    a.set_true(100);
    assert!(!a.is_empty());
    assert!(a.contains(3) && a.contains(100) && !a.contains(4) && !a.contains(1000));
    let b = HeapNullBitmap::from_bool_vec(vec![false, false, false, true]);
    assert!(b.contains(3) && !b.contains(0));
    assert!(b.is_subset(&a) && !a.is_subset(&b));
    assert!(a == a.clone() && a != b);
    assert_eq!(b.estimated_heap_size(), 4);
    assert_eq!(a.estimated_heap_size(), 16);
    // Room that is made counts, though no position is set.
    assert!(!HeapNullBitmap::with_capacity(2).is_empty());
    assert!(HeapNullBitmap::with_capacity(2) != HeapNullBitmap::empty());
    // Filled one by one, bitmaps with the same positions are equal.
    let mut c = HeapNullBitmap::empty();
    c.set_true(3);
    assert!(c == b);
}

#[test]
fn bitmap_from_bools() {
    let b = HeapNullBitmap::from(vec![true, false, true]);
    assert!(b.contains(0) && !b.contains(1) && b.contains(2) && !b.contains(3));
    assert!(b == HeapNullBitmap::from_bool_vec(vec![true, false, true]));
}

#[test]
fn hash_codes_keep_their_number() {
    for v in [0, 1, u64::MAX] {
        assert_eq!(Crc32HashCode::from(v).value(), v);
        assert!(XxHash64HashCode::from(v) == XxHash64HashCode::from(v));
    }
    assert!(XxHash64HashCode::from(1) != XxHash64HashCode::from(1 << 63));
}

#[test]
fn keys_have_an_equivalence() {
    fn reflexive<T: Eq>(a: &T) -> bool {
        a == a
    }
    let key = SerializedKeySerializer::<StackNullBitmap>::from_hash_code(XxHash64HashCode::from(7), 0)
        .into_hash_key();
    assert!(reflexive(&key));
}
