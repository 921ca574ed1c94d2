//! Keys of rows: byte strings that come in the order of the rows.
use vstd::prelude::*;
use vstd::utf8::encode_utf8;

use crate::number_keys::{
    decimal_rank, put_decimal, put_int256, signed_rank, DECIMAL_KEY_BYTES,
};
use crate::property::OrderType;
use crate::scalar::{
    datum_model, lemma_row_model_index, lemma_row_model_len, row_model, Datum, OwnedRow, Scalar,
    ScalarImpl,
};

verus! {

/// The `n` lowest bytes of `v`, highest byte first.
pub open spec fn be_bytes(v: nat, n: nat) -> Seq<u8>
    decreases n,
{
    if n == 0 {
        Seq::empty()
    } else {
        be_bytes(v / 256, (n - 1) as nat).push((v % 256) as u8)
    }
}

/// A number that grows with the floating-point number of the bit pattern.
pub open spec fn float_rank(bits: int, sign: int) -> int {
    if bits < sign {
        bits + sign
    } else {
        2 * sign - 1 - bits
    }
}

/// Bytes with an end that can be told: a zero byte is followed by 255, the end is two zeros.
pub open spec fn terminated(b: Seq<u8>) -> Seq<u8>
    decreases b.len(),
{
    if b.len() == 0 {
        seq![0u8, 0u8]
    } else if b[0] == 0 {
        seq![0u8, 255u8] + terminated(b.drop_first())
    } else {
        seq![b[0]] + terminated(b.drop_first())
    }
}

/// The bytes of a value in a key.
pub open spec fn ordered_scalar(s: Scalar) -> Seq<u8>
    decreases s, 0nat,
{
    match s {
        Scalar::Bool(v) => be_bytes(
            if v {
                1
            } else {
                0
            },
            1,
        ),
        Scalar::Int16(v) => be_bytes((v + 0x8000) as nat, 2),
        Scalar::Int32(v) => be_bytes((v + 0x8000_0000) as nat, 4),
        Scalar::Int64(v) => be_bytes((v + 0x8000_0000_0000_0000) as nat, 8),
        Scalar::Float32(v) => be_bytes(
            float_rank(v.normal_form().bits as int, 0x8000_0000) as nat,
            4,
        ),
        Scalar::Float64(v) => be_bytes(
            float_rank(v.normal_form().bits as int, 0x8000_0000_0000_0000) as nat,
            8,
        ),
        Scalar::Decimal(v) => be_bytes(decimal_rank(v), (DECIMAL_KEY_BYTES + 1) as nat),
        Scalar::Date(v) => be_bytes((v.days + 0x8000_0000) as nat, 4),
        Scalar::Time(v) => be_bytes(v.secs as nat, 4) + be_bytes(v.nano as nat, 4),
        Scalar::Timestamp(v) => be_bytes((v.secs + 0x8000_0000_0000_0000) as nat, 8) + be_bytes(
            v.nsecs as nat,
            4,
        ),
        Scalar::Serial(v) => be_bytes((v.id + 0x8000_0000_0000_0000) as nat, 8),
        Scalar::Int256(v) => be_bytes(signed_rank(v), v.len()),
        Scalar::Utf8(v) => terminated(encode_utf8(v)),
        Scalar::Bytea(v) => terminated(v),
        Scalar::Jsonb(v) => terminated(v),
        Scalar::Struct(vs) => ordered_items(vs),
        Scalar::List(vs) => ordered_items(vs),
    }
}

/// A number for the type of a value. Values of different types come in the order of these.
pub open spec fn scalar_tag(s: Scalar) -> u8 {
    match s {
        Scalar::Bool(_) => 1,
        Scalar::Int16(_) => 2,
        Scalar::Int32(_) => 3,
        Scalar::Int64(_) => 4,
        Scalar::Float32(_) => 5,
        Scalar::Float64(_) => 6,
        Scalar::Decimal(_) => 7,
        Scalar::Date(_) => 8,
        Scalar::Utf8(_) => 9,
        Scalar::Time(_) => 10,
        Scalar::Timestamp(_) => 11,
        Scalar::Bytea(_) => 12,
        Scalar::Jsonb(_) => 13,
        Scalar::Serial(_) => 14,
        Scalar::Int256(_) => 15,
        Scalar::Struct(_) => 16,
        Scalar::List(_) => 17,
    }
}

/// The bytes of a datum in a key: the number of the type, and the value. Null comes first.
pub open spec fn ascending_datum(d: Option<Scalar>) -> Seq<u8>
    decreases d, 1nat,
{
    match d {
        None => seq![0u8],
        Some(s) => seq![scalar_tag(s)] + ordered_scalar(s),
    }
}

/// The bytes of the parts of a value in a key: each part follows a one, and the end is a zero.
pub open spec fn ordered_items(items: Seq<Option<Scalar>>) -> Seq<u8>
    decreases items, 0nat,
{
    if items.len() == 0 {
        seq![0u8]
    } else {
        seq![1u8] + ascending_datum(items[0]) + ordered_items(items.drop_first())
    }
}

/// The bytes, each turned into its complement, so that they come in the opposite order.
pub open spec fn complement(b: Seq<u8>) -> Seq<u8> {
    b.map_values(|x: u8| (255 - x) as u8)
}

/// The bytes of a column in a key.
pub open spec fn ordered_datum(d: Option<Scalar>, order: OrderType) -> Seq<u8> {
    match order {
        OrderType::Ascending => ascending_datum(d),
        OrderType::Descending => complement(ascending_datum(d)),
    }
}

/// The direction of column `i`: where none is given, it is ascending.
pub open spec fn order_at(orders: Seq<OrderType>, i: int) -> OrderType {
    if 0 <= i < orders.len() {
        orders[i]
    } else {
        OrderType::Ascending
    }
}

/// The key of a row.
pub open spec fn ordered_row(row: Seq<Option<Scalar>>, orders: Seq<OrderType>) -> Seq<u8>
    decreases row.len(),
{
    if row.len() == 0 {
        Seq::empty()
    } else {
        ordered_row(row.drop_last(), orders) + ordered_datum(
            row.last(),
            order_at(orders, row.len() - 1),
        )
    }
}

/// Makes the keys of rows.
#[derive(Debug)]
pub struct OrderedRowSerializer {
    order_types: Vec<OrderType>,
}

impl OrderedRowSerializer {
    /// The direction of each column.
    pub closed spec fn orders(&self) -> Seq<OrderType> {
        self.order_types@
    }

    pub fn new(order_types: Vec<OrderType>) -> (r: Self)
        ensures
            r.orders() == order_types@,
    {
        OrderedRowSerializer { order_types }
    }

    /// The number of columns of a key.
    pub fn size(&self) -> (n: usize)
        ensures
            n == self.orders().len(),
    {
        self.order_types.len()
    }
}

impl Clone for OrderedRowSerializer {
    fn clone(&self) -> (r: Self)
        ensures
            r.orders() == self.orders(),
    {
        let order_types = self.order_types.clone();
        assert(order_types@ =~= self.order_types@);
        OrderedRowSerializer { order_types }
    }
}

pub(crate) fn put_be(buf: &mut Vec<u8>, v: u64, n: usize)
    ensures
        final(buf)@ == old(buf)@ + be_bytes(v as nat, n as nat),
    decreases n,
{
    if n > 0 {
        put_be(buf, v / 256, n - 1);
        buf.push((v % 256) as u8);
    }
    assert(buf@ =~= old(buf)@ + be_bytes(v as nat, n as nat));
}

fn put_terminated(buf: &mut Vec<u8>, bytes: &[u8])
    ensures
        final(buf)@ == old(buf)@ + terminated(bytes@),
{
    let mut i: usize = 0;
    assert(bytes@.skip(0) =~= bytes@);
    while i < bytes.len()
        invariant
            i <= bytes@.len(),
            buf@ + terminated(bytes@.skip(i as int)) == old(buf)@ + terminated(bytes@),
        decreases bytes@.len() - i,
    {
        let ghost (was, rest) = (buf@, bytes@.skip(i as int));
        assert(rest.drop_first() =~= bytes@.skip(i + 1));
        if bytes[i] == 0 {
            buf.push(0);
            buf.push(255);
            assert(buf@ + terminated(rest.drop_first()) =~= was + terminated(rest));
        } else {
            buf.push(bytes[i]);
            assert(buf@ + terminated(rest.drop_first()) =~= was + terminated(rest));
        }
        i = i + 1;
    }
    let ghost was = buf@;
    buf.push(0);
    buf.push(0);
    assert(buf@ =~= was + terminated(bytes@.skip(i as int)));
}

/// Appends the bytes of a value in a key.
fn put_scalar(buf: &mut Vec<u8>, s: &ScalarImpl)
    ensures
        final(buf)@ == old(buf)@ + ordered_scalar(s.model()),
    decreases s, 0nat,
{
    match s {
        ScalarImpl::Bool(v) => {
            put_be(
                buf,
                if *v {
                    1
                } else {
                    0
                },
                1,
            );
        },
        ScalarImpl::Int16(v) => {
            put_be(buf, (*v as i32 + 0x8000) as u64, 2);
        },
        ScalarImpl::Int32(v) => {
            put_be(buf, (*v as i64 + 0x8000_0000) as u64, 4);
        },
        ScalarImpl::Int64(v) => {
            put_be(buf, (*v as i128 + 0x8000_0000_0000_0000) as u64, 8);
        },
        ScalarImpl::Float32(v) => {
            let bits: u32 = v.normalized().bits;
            if bits < 0x8000_0000 {
                put_be(buf, bits as u64 + 0x8000_0000, 4);
            } else {
                put_be(buf, 0xffff_ffff - bits as u64, 4);
            }
        },
        ScalarImpl::Float64(v) => {
            let bits: u64 = v.normalized().bits;
            if bits < 0x8000_0000_0000_0000 {
                put_be(buf, bits + 0x8000_0000_0000_0000, 8);
            } else {
                put_be(buf, 0xffff_ffff_ffff_ffff - bits, 8);
            }
        },
        ScalarImpl::Decimal(v) => {
            put_decimal(buf, v);
        },
        ScalarImpl::Date(v) => {
            put_be(buf, (v.days as i64 + 0x8000_0000) as u64, 4);
        },
        ScalarImpl::Time(v) => {
            put_be(buf, v.secs as u64, 4);
            put_be(buf, v.nano as u64, 4);
            assert(buf@ =~= old(buf)@ + ordered_scalar(s.model()));
        },
        ScalarImpl::Timestamp(v) => {
            put_be(buf, (v.secs as i128 + 0x8000_0000_0000_0000) as u64, 8);
            put_be(buf, v.nsecs as u64, 4);
            assert(buf@ =~= old(buf)@ + ordered_scalar(s.model()));
        },
        ScalarImpl::Serial(v) => {
            put_be(buf, (v.id as i128 + 0x8000_0000_0000_0000) as u64, 8);
        },
        ScalarImpl::Int256(v) => {
            put_int256(buf, v);
        },
        ScalarImpl::Utf8(v) => {
            put_terminated(buf, v.as_str().as_bytes());
        },
        ScalarImpl::Bytea(v) => {
            put_terminated(buf, v.as_slice());
        },
        ScalarImpl::Jsonb(v) => {
            put_terminated(buf, v.as_slice());
        },
        ScalarImpl::Struct(v) => {
            put_items(buf, v);
        },
        ScalarImpl::List(v) => {
            put_items(buf, v);
        },
    }
}

/// The number for the type of a value.
fn tag_of(s: &ScalarImpl) -> (r: u8)
    ensures
        r == scalar_tag(s.model()),
{
    match s {
        ScalarImpl::Bool(_) => 1,
        ScalarImpl::Int16(_) => 2,
        ScalarImpl::Int32(_) => 3,
        ScalarImpl::Int64(_) => 4,
        ScalarImpl::Float32(_) => 5,
        ScalarImpl::Float64(_) => 6,
        ScalarImpl::Decimal(_) => 7,
        ScalarImpl::Date(_) => 8,
        ScalarImpl::Utf8(_) => 9,
        ScalarImpl::Time(_) => 10,
        ScalarImpl::Timestamp(_) => 11,
        ScalarImpl::Bytea(_) => 12,
        ScalarImpl::Jsonb(_) => 13,
        ScalarImpl::Serial(_) => 14,
        ScalarImpl::Int256(_) => 15,
        ScalarImpl::Struct(_) => 16,
        ScalarImpl::List(_) => 17,
    }
}

/// Appends the bytes of a datum in a key.
fn put_datum(buf: &mut Vec<u8>, d: &Datum)
    ensures
        final(buf)@ == old(buf)@ + ascending_datum(datum_model(*d)),
    decreases d, 1nat,
{
    match d {
        None => {
            buf.push(0);
        },
        Some(s) => {
            buf.push(tag_of(s));
            put_scalar(buf, s);
        },
    }
    assert(buf@ =~= old(buf)@ + ascending_datum(datum_model(*d)));
}

/// Appends the bytes of the parts of a value in a key.
fn put_items(buf: &mut Vec<u8>, items: &Vec<Datum>)
    ensures
        final(buf)@ == old(buf)@ + ordered_items(row_model(items@)),
    decreases items, 0nat,
{
    let ghost (start, all) = (buf@, row_model(items@));
    let mut i: usize = 0;
    proof {
        lemma_row_model_len(items@);
        assert(all.skip(0) =~= all);
    }
    while i < items.len()
        invariant
            i <= items.len(),
            all == row_model(items@),
            all.len() == items@.len(),
            buf@ + ordered_items(all.skip(i as int)) == start + ordered_items(all),
        decreases items.len() - i,
    {
        let ghost (was, rest) = (buf@, all.skip(i as int));
        proof {
            assert(decreases_to!(items => items@[i as int]));
            lemma_row_model_index(items@, i as int);
            assert(rest.drop_first() =~= all.skip(i + 1));
        }
        buf.push(1);
        put_datum(buf, &items[i]);
        assert(buf@ + ordered_items(rest.drop_first()) =~= was + ordered_items(rest));
        i = i + 1;
    }
    let ghost was = buf@;
    buf.push(0);
    assert(buf@ =~= was + ordered_items(all.skip(i as int)));
}

/// The bytes of a column in a key.
fn datum_key(d: &Datum, order: OrderType) -> (r: Vec<u8>)
    ensures
        r@ == ordered_datum(datum_model(*d), order),
{
    let mut buf: Vec<u8> = Vec::new();
    put_datum(&mut buf, d);
    assert(buf@ =~= ascending_datum(datum_model(*d)));
    match order {
        OrderType::Ascending => buf,
        OrderType::Descending => {
            let mut out: Vec<u8> = Vec::new();
            let mut i: usize = 0;
            while i < buf.len()
                invariant
                    i <= buf@.len(),
                    out@ =~= complement(buf@.take(i as int)),
                decreases buf@.len() - i,
            {
                out.push(255 - buf[i]);
                i = i + 1;
            }
            assert(buf@.take(buf@.len() as int) =~= buf@);
            out
        },
    }
}

/// The key of a row.
pub fn serialize_pk(pk: &OwnedRow, serializer: &OrderedRowSerializer) -> (key: Vec<u8>)
    ensures
        key@ == ordered_row(pk@, serializer.orders()),
{
    let ghost (row, orders) = (pk@, serializer.orders());
    let mut key: Vec<u8> = Vec::new();
    let mut i: usize = 0;
    proof {
        lemma_row_model_len(pk.datums@);
        assert(row.take(0) =~= Seq::empty());
    }
    while i < pk.datums.len()
        invariant
            i <= pk.datums@.len(),
            row == pk@,
            orders == serializer.orders(),
            row.len() == pk.datums@.len(),
            ordered_row(row.take(i as int), orders) == key@,
        decreases pk.datums@.len() - i,
    {
        proof {
            lemma_row_model_index(pk.datums@, i as int);
            assert(row.take(i + 1).drop_last() =~= row.take(i as int));
        }
        let order = if i < serializer.order_types.len() {
            serializer.order_types[i]
        } else {
            OrderType::Ascending
        };
        let mut bytes: Vec<u8> = datum_key(&pk.datums[i], order);
        key.append(&mut bytes);
        i = i + 1;
    }
    assert(row.take(row.len() as int) =~= row);
    key
}

} // verus!
