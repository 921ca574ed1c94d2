//! The keys of rows come in the order of the rows.
use vstd::prelude::*;
use vstd::utf8::{encode_utf8, encode_utf8_decode_utf8};

use crate::byte_order::{before, before_irreflexive, before_total};
use crate::number_keys::{
    decimal_rank, decimal_rank_fits, decimal_rank_is_injective, signed_rank, signed_rank_is_value,
    signed_value, signed_value_is_injective, DECIMAL_KEY_BYTES,
};
use crate::ordered::{
    ascending_datum, be_bytes, complement, float_rank, order_at, ordered_datum, ordered_items,
    ordered_row, ordered_scalar, scalar_tag, terminated,
};
use crate::property::OrderType;
use crate::scalar::{
    canonical_datum, canonical_row, canonical_scalar, lemma_canonical_row_index,
    lemma_canonical_row_len, valid_datum, valid_row, valid_scalar, Scalar,
};
use crate::wire::{byte_range, lemma_byte_ranges};

verus! {

/// `a` comes before `b`. Numbers are compared by value, with not-a-number last, texts and
/// documents by their bytes, structs and lists part by part. Values of different types come in
/// the order of their types.
pub open spec fn scalar_before(a: Scalar, b: Scalar) -> bool
    decreases a, 0nat,
{
    match (a, b) {
        (Scalar::Bool(x), Scalar::Bool(y)) => !x && y,
        (Scalar::Int16(x), Scalar::Int16(y)) => x < y,
        (Scalar::Int32(x), Scalar::Int32(y)) => x < y,
        (Scalar::Int64(x), Scalar::Int64(y)) => x < y,
        (Scalar::Float32(x), Scalar::Float32(y)) => float_rank(
            x.normal_form().bits as int,
            0x8000_0000,
        ) < float_rank(y.normal_form().bits as int, 0x8000_0000),
        (Scalar::Float64(x), Scalar::Float64(y)) => float_rank(
            x.normal_form().bits as int,
            0x8000_0000_0000_0000,
        ) < float_rank(y.normal_form().bits as int, 0x8000_0000_0000_0000),
        (Scalar::Decimal(x), Scalar::Decimal(y)) => decimal_rank(x) < decimal_rank(y),
        (Scalar::Date(x), Scalar::Date(y)) => x.days < y.days,
        (Scalar::Time(x), Scalar::Time(y)) => x.secs < y.secs || (x.secs == y.secs && x.nano
            < y.nano),
        (Scalar::Timestamp(x), Scalar::Timestamp(y)) => x.secs < y.secs || (x.secs == y.secs
            && x.nsecs < y.nsecs),
        (Scalar::Serial(x), Scalar::Serial(y)) => x.id < y.id,
        (Scalar::Int256(x), Scalar::Int256(y)) => x.len() == y.len() && signed_value(x)
            < signed_value(y),
        (Scalar::Utf8(x), Scalar::Utf8(y)) => before(encode_utf8(x), encode_utf8(y)),
        (Scalar::Bytea(x), Scalar::Bytea(y)) => before(x, y),
        (Scalar::Jsonb(x), Scalar::Jsonb(y)) => before(x, y),
        (Scalar::Struct(xs), Scalar::Struct(ys)) => items_before(xs, ys),
        (Scalar::List(xs), Scalar::List(ys)) => items_before(xs, ys),
        _ => scalar_tag(a) < scalar_tag(b),
    }
}

/// `a` comes before `b` in a column that is sorted in ascending order. Null comes first.
pub open spec fn datum_before(a: Option<Scalar>, b: Option<Scalar>) -> bool
    decreases a, 1nat,
{
    match (a, b) {
        (None, Some(_)) => true,
        (Some(x), Some(y)) => scalar_before(x, y),
        _ => false,
    }
}

/// `a` comes before `b`: in the first part in which they differ, or it ends first.
pub open spec fn items_before(a: Seq<Option<Scalar>>, b: Seq<Option<Scalar>>) -> bool
    decreases a, 0nat,
{
    if b.len() == 0 {
        false
    } else if a.len() == 0 {
        true
    } else {
        ||| datum_before(a[0], b[0])
        ||| canonical_datum(a[0]) == canonical_datum(b[0]) && items_before(
            a.drop_first(),
            b.drop_first(),
        )
    }
}

/// `a` comes before `b`: in the first column in which they differ, by the order of that column.
pub open spec fn row_before(
    a: Seq<Option<Scalar>>,
    b: Seq<Option<Scalar>>,
    orders: Seq<OrderType>,
) -> bool {
    exists|i: int|
        0 <= i < a.len() && i < b.len() && canonical_row(a.take(i)) == canonical_row(b.take(i))
            && #[trigger] column_before(a[i], b[i], order_at(orders, i))
}

pub open spec fn column_before(a: Option<Scalar>, b: Option<Scalar>, order: OrderType) -> bool {
    match order {
        OrderType::Ascending => datum_before(a, b),
        OrderType::Descending => datum_before(b, a),
    }
}

/// At some byte that both have, `p` has the smaller one, and up to it they agree.
spec fn splits_at(p: Seq<u8>, q: Seq<u8>, i: int) -> bool {
    &&& 0 <= i < p.len()
    &&& i < q.len()
    &&& p[i] < q[i]
    &&& forall|j: int| 0 <= j < i ==> p[j] == q[j]
}

spec fn splits(p: Seq<u8>, q: Seq<u8>) -> bool {
    exists|i: int| splits_at(p, q, i)
}

proof fn lemma_splits_before(p: Seq<u8>, q: Seq<u8>)
    requires
        splits(p, q),
    ensures
        before(p, q),
    decreases p.len(),
{
    let i = choose|i: int| splits_at(p, q, i);
    if i > 0 {
        assert(p[0] == q[0]);
        assert(splits_at(p.drop_first(), q.drop_first(), i - 1));
        lemma_splits_before(p.drop_first(), q.drop_first());
    }
}

/// Neither what both begin with nor what follows changes anything.
proof fn lemma_splits_within(r: Seq<u8>, p: Seq<u8>, q: Seq<u8>, x: Seq<u8>, y: Seq<u8>)
    requires
        splits(p, q),
    ensures
        splits(r + p + x, r + q + y),
{
    let i = choose|i: int| splits_at(p, q, i);
    assert(splits_at(r + p + x, r + q + y, r.len() + i));
}

proof fn lemma_splits_complement(p: Seq<u8>, q: Seq<u8>)
    requires
        splits(p, q),
    ensures
        splits(complement(q), complement(p)),
{
    let i = choose|i: int| splits_at(p, q, i);
    assert(splits_at(complement(q), complement(p), i));
}

proof fn lemma_be_len(v: nat, n: nat)
    ensures
        be_bytes(v, n).len() == n,
    decreases n,
{
    if n > 0 {
        lemma_be_len(v / 256, (n - 1) as nat);
    }
}

proof fn lemma_be_splits(v: nat, w: nat, n: nat)
    requires
        v < w,
        w < byte_range(n),
    ensures
        splits(be_bytes(v, n), be_bytes(w, n)),
    decreases n,
{
    let (p, q) = (be_bytes(v, n), be_bytes(w, n));
    let m = (n - 1) as nat;
    lemma_be_len(v / 256, m);
    lemma_be_len(w / 256, m);
    if v / 256 == w / 256 {
        assert(splits_at(p, q, m as int));
    } else {
        lemma_be_splits(v / 256, w / 256, m);
        let (s, t) = (be_bytes(v / 256, m), be_bytes(w / 256, m));
        let i = choose|i: int| splits_at(s, t, i);
        assert(splits_at(p, q, i));
    }
}

/// Of two numbers one after the other, the first decides, and the second where the first agree.
proof fn lemma_pair_splits(v1: nat, w1: nat, n1: nat, v2: nat, w2: nat, n2: nat)
    requires
        v1 < byte_range(n1),
        w1 < byte_range(n1),
        v2 < byte_range(n2),
        w2 < byte_range(n2),
        v1 < w1 || (v1 == w1 && v2 < w2),
    ensures
        splits(be_bytes(v1, n1) + be_bytes(v2, n2), be_bytes(w1, n1) + be_bytes(w2, n2)),
{
    let nothing = Seq::<u8>::empty();
    let (p1, q1, p2, q2) = (
        be_bytes(v1, n1),
        be_bytes(w1, n1),
        be_bytes(v2, n2),
        be_bytes(w2, n2),
    );
    if v1 < w1 {
        lemma_be_splits(v1, w1, n1);
        lemma_splits_within(nothing, p1, q1, p2, q2);
        assert(nothing + p1 + p2 =~= p1 + p2);
        assert(nothing + q1 + q2 =~= q1 + q2);
    } else {
        lemma_be_splits(v2, w2, n2);
        lemma_splits_within(p1, p2, q2, nothing, nothing);
        assert(p1 + p2 + nothing =~= p1 + p2);
        assert(q1 + q2 + nothing =~= q1 + q2);
    }
}

proof fn lemma_terminated_splits(a: Seq<u8>, b: Seq<u8>)
    requires
        before(a, b),
    ensures
        splits(terminated(a), terminated(b)),
    decreases a.len(),
{
    let (p, q) = (terminated(a), terminated(b));
    if a.len() == 0 {
        if b[0] == 0 {
            assert(splits_at(p, q, 1));
        } else {
            assert(splits_at(p, q, 0));
        }
    } else if a[0] != b[0] {
        assert(splits_at(p, q, 0));
    } else {
        let (s, t) = (terminated(a.drop_first()), terminated(b.drop_first()));
        let nothing = Seq::<u8>::empty();
        lemma_terminated_splits(a.drop_first(), b.drop_first());
        let head = if a[0] == 0 {
            seq![0u8, 255u8]
        } else {
            seq![a[0]]
        };
        lemma_splits_within(head, s, t, nothing, nothing);
        assert(head + s + nothing =~= p);
        assert(head + t + nothing =~= q);
    }
}

/// A value that comes before another of its type has bytes that come before.
proof fn lemma_scalar_splits(a: Scalar, b: Scalar)
    requires
        scalar_before(a, b),
        scalar_tag(a) == scalar_tag(b),
    ensures
        splits(ordered_scalar(a), ordered_scalar(b)),
    decreases a, 0nat,
{
    lemma_byte_ranges();
    match (a, b) {
        (Scalar::Bool(x), Scalar::Bool(y)) => {
            lemma_be_splits(0, 1, 1);
        },
        (Scalar::Int16(x), Scalar::Int16(y)) => {
            lemma_be_splits((x + 0x8000) as nat, (y + 0x8000) as nat, 2);
        },
        (Scalar::Int32(x), Scalar::Int32(y)) => {
            lemma_be_splits((x + 0x8000_0000) as nat, (y + 0x8000_0000) as nat, 4);
        },
        (Scalar::Int64(x), Scalar::Int64(y)) => {
            lemma_be_splits(
                (x + 0x8000_0000_0000_0000) as nat,
                (y + 0x8000_0000_0000_0000) as nat,
                8,
            );
        },
        (Scalar::Float32(x), Scalar::Float32(y)) => {
            lemma_be_splits(
                float_rank(x.normal_form().bits as int, 0x8000_0000) as nat,
                float_rank(y.normal_form().bits as int, 0x8000_0000) as nat,
                4,
            );
        },
        (Scalar::Float64(x), Scalar::Float64(y)) => {
            lemma_be_splits(
                float_rank(x.normal_form().bits as int, 0x8000_0000_0000_0000) as nat,
                float_rank(y.normal_form().bits as int, 0x8000_0000_0000_0000) as nat,
                8,
            );
        },
        (Scalar::Decimal(x), Scalar::Decimal(y)) => {
            decimal_rank_fits(y);
            lemma_be_splits(decimal_rank(x), decimal_rank(y), (DECIMAL_KEY_BYTES + 1) as nat);
        },
        (Scalar::Date(x), Scalar::Date(y)) => {
            lemma_be_splits((x.days + 0x8000_0000) as nat, (y.days + 0x8000_0000) as nat, 4);
        },
        (Scalar::Time(x), Scalar::Time(y)) => {
            lemma_pair_splits(
                x.secs as nat,
                y.secs as nat,
                4,
                x.nano as nat,
                y.nano as nat,
                4,
            );
        },
        (Scalar::Timestamp(x), Scalar::Timestamp(y)) => {
            lemma_pair_splits(
                (x.secs + 0x8000_0000_0000_0000) as nat,
                (y.secs + 0x8000_0000_0000_0000) as nat,
                8,
                x.nsecs as nat,
                y.nsecs as nat,
                4,
            );
        },
        (Scalar::Serial(x), Scalar::Serial(y)) => {
            lemma_be_splits(
                (x.id + 0x8000_0000_0000_0000) as nat,
                (y.id + 0x8000_0000_0000_0000) as nat,
                8,
            );
        },
        (Scalar::Int256(x), Scalar::Int256(y)) => {
            signed_rank_is_value(x);
            signed_rank_is_value(y);
            lemma_be_splits(signed_rank(x), signed_rank(y), x.len());
        },
        (Scalar::Utf8(x), Scalar::Utf8(y)) => {
            lemma_terminated_splits(encode_utf8(x), encode_utf8(y));
        },
        (Scalar::Bytea(x), Scalar::Bytea(y)) => {
            lemma_terminated_splits(x, y);
        },
        (Scalar::Jsonb(x), Scalar::Jsonb(y)) => {
            lemma_terminated_splits(x, y);
        },
        (Scalar::Struct(xs), Scalar::Struct(ys)) => {
            lemma_items_splits(xs, ys);
        },
        (Scalar::List(xs), Scalar::List(ys)) => {
            lemma_items_splits(xs, ys);
        },
        _ => {},
    }
}

proof fn lemma_ascending_splits(a: Option<Scalar>, b: Option<Scalar>)
    requires
        datum_before(a, b),
    ensures
        splits(ascending_datum(a), ascending_datum(b)),
    decreases a, 1nat,
{
    let (p, q) = (ascending_datum(a), ascending_datum(b));
    match (a, b) {
        (Some(s), Some(t)) if scalar_tag(s) == scalar_tag(t) => {
            let (tag, nothing) = (seq![scalar_tag(s)], Seq::<u8>::empty());
            lemma_scalar_splits(s, t);
            let (m, n) = (ordered_scalar(s), ordered_scalar(t));
            lemma_splits_within(tag, m, n, nothing, nothing);
            assert(tag + m + nothing =~= p);
            assert(tag + n + nothing =~= q);
        },
        _ => {
            assert(splits_at(p, q, 0));
        },
    }
}

proof fn lemma_items_splits(a: Seq<Option<Scalar>>, b: Seq<Option<Scalar>>)
    requires
        items_before(a, b),
    ensures
        splits(ordered_items(a), ordered_items(b)),
    decreases a, 0nat,
{
    let (p, q) = (ordered_items(a), ordered_items(b));
    if a.len() == 0 {
        assert(splits_at(p, q, 0));
    } else {
        let (x, y) = (ordered_items(a.drop_first()), ordered_items(b.drop_first()));
        let one = seq![1u8];
        if datum_before(a[0], b[0]) {
            lemma_ascending_splits(a[0], b[0]);
            lemma_splits_within(one, ascending_datum(a[0]), ascending_datum(b[0]), x, y);
        } else {
            let nothing = Seq::<u8>::empty();
            lemma_items_splits(a.drop_first(), b.drop_first());
            lemma_same_datum(a[0], b[0]);
            let head = one + ascending_datum(a[0]);
            lemma_splits_within(head, x, y, nothing, nothing);
            assert(head + x + nothing =~= p);
            assert(head + y + nothing =~= q);
        }
    }
}

/// Values that are equal have the same bytes.
proof fn lemma_same_scalar(a: Scalar, b: Scalar)
    requires
        canonical_scalar(a) == canonical_scalar(b),
    ensures
        scalar_tag(a) == scalar_tag(b),
        ordered_scalar(a) == ordered_scalar(b),
    decreases a, 0nat,
{
    match (a, b) {
        (Scalar::Struct(xs), Scalar::Struct(ys)) => {
            lemma_same_items(xs, ys);
        },
        (Scalar::List(xs), Scalar::List(ys)) => {
            lemma_same_items(xs, ys);
        },
        (Scalar::Float32(x), Scalar::Float32(y)) => {},
        (Scalar::Float64(x), Scalar::Float64(y)) => {},
        (Scalar::Decimal(x), Scalar::Decimal(y)) => {
            assert(x.normal_form() == y.normal_form());
        },
        _ => {
            assert(a == b);
        },
    }
}

proof fn lemma_same_datum(a: Option<Scalar>, b: Option<Scalar>)
    requires
        canonical_datum(a) == canonical_datum(b),
    ensures
        ascending_datum(a) == ascending_datum(b),
    decreases a, 1nat,
{
    if let (Some(x), Some(y)) = (a, b) {
        lemma_same_scalar(x, y);
    }
}

proof fn lemma_same_items(a: Seq<Option<Scalar>>, b: Seq<Option<Scalar>>)
    requires
        canonical_row(a) == canonical_row(b),
    ensures
        ordered_items(a) == ordered_items(b),
    decreases a, 0nat,
{
    broadcast use {lemma_canonical_row_len, lemma_canonical_row_index};

    assert(canonical_row(a).len() == canonical_row(b).len());
    if a.len() > 0 {
        assert(canonical_row(a)[0] == canonical_row(b)[0]);
        assert(canonical_row(a.drop_first()) =~= canonical_row(a).drop_first());
        assert(canonical_row(b.drop_first()) =~= canonical_row(b).drop_first());
        lemma_same_datum(a[0], b[0]);
        lemma_same_items(a.drop_first(), b.drop_first());
    }
}

/// Of two different values, one comes before the other.
pub proof fn scalar_before_total(a: Scalar, b: Scalar)
    requires
        valid_scalar(a),
        valid_scalar(b),
        canonical_scalar(a) != canonical_scalar(b),
    ensures
        scalar_before(a, b) || scalar_before(b, a),
    decreases a, 0nat,
{
    match (a, b) {
        (Scalar::Utf8(x), Scalar::Utf8(y)) => {
            if encode_utf8(x) == encode_utf8(y) {
                encode_utf8_decode_utf8(x);
                encode_utf8_decode_utf8(y);
            }
            before_total(encode_utf8(x), encode_utf8(y));
        },
        (Scalar::Bytea(x), Scalar::Bytea(y)) => {
            before_total(x, y);
        },
        (Scalar::Jsonb(x), Scalar::Jsonb(y)) => {
            before_total(x, y);
        },
        (Scalar::Decimal(x), Scalar::Decimal(y)) => {
            if decimal_rank(x) == decimal_rank(y) {
                decimal_rank_is_injective(x, y);
            }
        },
        (Scalar::Int256(x), Scalar::Int256(y)) => {
            if signed_value(x) == signed_value(y) {
                signed_value_is_injective(x, y);
            }
        },
        (Scalar::Struct(xs), Scalar::Struct(ys)) => {
            items_before_total(xs, ys);
        },
        (Scalar::List(xs), Scalar::List(ys)) => {
            items_before_total(xs, ys);
        },
        _ => {},
    }
}

/// Of two different datums, one comes before the other.
pub proof fn datum_before_total(a: Option<Scalar>, b: Option<Scalar>)
    requires
        valid_datum(a),
        valid_datum(b),
        canonical_datum(a) != canonical_datum(b),
    ensures
        datum_before(a, b) || datum_before(b, a),
    decreases a, 1nat,
{
    if let (Some(s), Some(t)) = (a, b) {
        scalar_before_total(s, t);
    }
}

/// Of two different sequences of parts, one comes before the other.
pub proof fn items_before_total(a: Seq<Option<Scalar>>, b: Seq<Option<Scalar>>)
    requires
        valid_row(a),
        valid_row(b),
        canonical_row(a) != canonical_row(b),
    ensures
        items_before(a, b) || items_before(b, a),
    decreases a, 0nat,
{
    if a.len() > 0 && b.len() > 0 {
        assert(valid_datum(a[0]) && valid_datum(b[0]));
        if canonical_datum(a[0]) == canonical_datum(b[0]) {
            let (x, y) = (a.drop_first(), b.drop_first());
            assert forall|i: int| #![trigger x[i]] 0 <= i < x.len() implies valid_datum(x[i]) by {
                assert(x[i] == a[i + 1]);
            }
            assert forall|i: int| #![trigger y[i]] 0 <= i < y.len() implies valid_datum(y[i]) by {
                assert(y[i] == b[i + 1]);
            }
            items_before_total(x, y);
        } else {
            datum_before_total(a[0], b[0]);
        }
    }
}

proof fn lemma_datum_splits(a: Option<Scalar>, b: Option<Scalar>, order: OrderType)
    requires
        column_before(a, b, order),
    ensures
        splits(ordered_datum(a, order), ordered_datum(b, order)),
{
    match order {
        OrderType::Ascending => {
            lemma_ascending_splits(a, b);
        },
        OrderType::Descending => {
            lemma_ascending_splits(b, a);
            lemma_splits_complement(ascending_datum(b), ascending_datum(a));
        },
    }
}

/// Rows that are equal, value by value, have the same key.
proof fn lemma_same_key(
    a: Seq<Option<Scalar>>,
    b: Seq<Option<Scalar>>,
    orders: Seq<OrderType>,
)
    requires
        canonical_row(a) == canonical_row(b),
    ensures
        ordered_row(a, orders) == ordered_row(b, orders),
    decreases a.len(),
{
    broadcast use {lemma_canonical_row_len, lemma_canonical_row_index};

    assert(canonical_row(a).len() == canonical_row(b).len());
    if a.len() > 0 {
        assert(canonical_row(a.drop_last()) =~= canonical_row(a).drop_last());
        assert(canonical_row(b.drop_last()) =~= canonical_row(b).drop_last());
        lemma_same_key(a.drop_last(), b.drop_last(), orders);
        assert(canonical_row(a)[a.len() - 1] == canonical_row(b)[a.len() - 1]);
        lemma_same_datum(a.last(), b.last());
    }
}

/// The key of a row is made of the key of the columns in front of column `i`, the bytes of
/// column `i`, and the rest, which is returned.
proof fn lemma_key_parts(row: Seq<Option<Scalar>>, orders: Seq<OrderType>, i: int) -> (rest:
    Seq<u8>)
    requires
        0 <= i < row.len(),
    ensures
        ordered_row(row, orders) == ordered_row(row.take(i), orders) + ordered_datum(
            row[i],
            order_at(orders, i),
        ) + rest,
    decreases row.len(),
{
    let front = ordered_row(row.take(i), orders);
    let column = ordered_datum(row[i], order_at(orders, i));
    if i == row.len() - 1 {
        assert(row.take(i) =~= row.drop_last());
        assert(front + column + Seq::<u8>::empty() =~= front + column);
        Seq::empty()
    } else {
        let rest = lemma_key_parts(row.drop_last(), orders, i);
        assert(row.drop_last().take(i) =~= row.take(i));
        let last = ordered_datum(row.last(), order_at(orders, row.len() - 1));
        assert(front + column + rest + last =~= front + column + (rest + last));
        rest + last
    }
}

/// The keys of rows come in the order of the rows: a row that comes before another, column by
/// column in the given directions, has a key that comes before the key of the other.
pub proof fn keys_come_in_row_order(
    a: Seq<Option<Scalar>>,
    b: Seq<Option<Scalar>>,
    orders: Seq<OrderType>,
)
    requires
        row_before(a, b, orders),
    ensures
        before(ordered_row(a, orders), ordered_row(b, orders)),
{
    let i = choose|i: int|
        0 <= i < a.len() && i < b.len() && canonical_row(a.take(i)) == canonical_row(b.take(i))
            && #[trigger] column_before(a[i], b[i], order_at(orders, i));
    let x = lemma_key_parts(a, orders, i);
    let y = lemma_key_parts(b, orders, i);
    lemma_same_key(a.take(i), b.take(i), orders);
    lemma_datum_splits(a[i], b[i], order_at(orders, i));
    lemma_splits_within(
        ordered_row(a.take(i), orders),
        ordered_datum(a[i], order_at(orders, i)),
        ordered_datum(b[i], order_at(orders, i)),
        x,
        y,
    );
    lemma_splits_before(ordered_row(a, orders), ordered_row(b, orders));
}

/// The first column in which two rows differ.
proof fn lemma_first_difference(a: Seq<Option<Scalar>>, b: Seq<Option<Scalar>>) -> (i: int)
    requires
        a.len() == b.len(),
        canonical_row(a) != canonical_row(b),
    ensures
        0 <= i < a.len(),
        canonical_row(a.take(i)) == canonical_row(b.take(i)),
        canonical_datum(a[i]) != canonical_datum(b[i]),
    decreases a.len(),
{
    broadcast use {lemma_canonical_row_len, lemma_canonical_row_index};

    if a.len() == 0 {
        assert(canonical_row(a) =~= canonical_row(b));
        0
    } else {
        let (x, y) = (a.drop_last(), b.drop_last());
        if canonical_row(x) == canonical_row(y) {
            let n = a.len() - 1;
            assert(a.take(n) =~= x);
            assert(b.take(n) =~= y);
            if canonical_datum(a[n]) == canonical_datum(b[n]) {
                assert forall|j: int| 0 <= j < a.len() implies canonical_row(a)[j]
                    == canonical_row(b)[j] by {
                    if j < n {
                        assert(canonical_row(x)[j] == canonical_row(y)[j]);
                    }
                }
                assert(canonical_row(a) =~= canonical_row(b));
            }
            n
        } else {
            let i = lemma_first_difference(x, y);
            assert(a.take(i) =~= x.take(i));
            assert(b.take(i) =~= y.take(i));
            i
        }
    }
}

/// Two rows have the same key exactly when they are equal, value by value, whatever the types
/// and the number of their columns.
pub proof fn keys_equal_iff_rows_equal(
    a: Seq<Option<Scalar>>,
    b: Seq<Option<Scalar>>,
    orders: Seq<OrderType>,
)
    requires
        valid_row(a),
        valid_row(b),
    ensures
        ordered_row(a, orders) == ordered_row(b, orders) <==> canonical_row(a) == canonical_row(b),
{
    if canonical_row(a) == canonical_row(b) {
        lemma_same_key(a, b, orders);
    } else if a.len() <= b.len() {
        lemma_other_key(a, b, orders);
    } else {
        lemma_other_key(b, a, orders);
    }
}

proof fn lemma_other_key(
    a: Seq<Option<Scalar>>,
    b: Seq<Option<Scalar>>,
    orders: Seq<OrderType>,
)
    requires
        valid_row(a),
        valid_row(b),
        a.len() <= b.len(),
        canonical_row(a) != canonical_row(b),
    ensures
        ordered_row(a, orders) != ordered_row(b, orders),
{
    let n = a.len() as int;
    let front = b.take(n);
    if canonical_row(a) == canonical_row(front) {
        assert(n < b.len()) by {
            if n == b.len() {
                assert(front =~= b);
            }
        }
        let _ = lemma_key_parts(b, orders, n);
        lemma_same_key(a, front, orders);
        assert(ordered_row(b, orders).len() > ordered_row(a, orders).len());
    } else {
        let i = lemma_first_difference(a, front);
        assert(front.take(i) =~= b.take(i));
        assert(valid_datum(a[i]) && valid_datum(b[i]));
        datum_before_total(a[i], b[i]);
        before_irreflexive(ordered_row(a, orders));
        if column_before(a[i], b[i], order_at(orders, i)) {
            keys_come_in_row_order(a, b, orders);
        } else {
            assert(column_before(b[i], a[i], order_at(orders, i)));
            keys_come_in_row_order(b, a, orders);
        }
    }
}

/// Values of one type come in the usual order of that type: numbers, dates and times by what they
/// count, false before true, and texts by their bytes.
pub proof fn values_come_in_the_usual_order(a: Scalar, b: Scalar)
    ensures
        match (a, b) {
            (Scalar::Bool(x), Scalar::Bool(y)) => scalar_before(a, b) <==> !x && y,
            (Scalar::Int16(x), Scalar::Int16(y)) => scalar_before(a, b) <==> x < y,
            (Scalar::Int32(x), Scalar::Int32(y)) => scalar_before(a, b) <==> x < y,
            (Scalar::Int64(x), Scalar::Int64(y)) => scalar_before(a, b) <==> x < y,
            (Scalar::Date(x), Scalar::Date(y)) => scalar_before(a, b) <==> x.days < y.days,
            (Scalar::Serial(x), Scalar::Serial(y)) => scalar_before(a, b) <==> x.id < y.id,
            (Scalar::Time(x), Scalar::Time(y)) => scalar_before(a, b) <==> (x.secs < y.secs || (x.secs == y.secs && x.nano < y.nano)),
            (Scalar::Timestamp(x), Scalar::Timestamp(y)) => scalar_before(a, b) <==> (x.secs < y.secs || (x.secs == y.secs && x.nsecs < y.nsecs)),
            (Scalar::Bytea(x), Scalar::Bytea(y)) => scalar_before(a, b) <==> before(x, y),
            (Scalar::Jsonb(x), Scalar::Jsonb(y)) => scalar_before(a, b) <==> before(x, y),
            (Scalar::Utf8(x), Scalar::Utf8(y)) => scalar_before(a, b) <==> before(encode_utf8(x), encode_utf8(y)),
            _ => true,
        },
{
}

/// In an ascending column null comes first, and other datums in the order of their values. In a
/// descending column all come the other way round.
pub proof fn directions_are_opposite(a: Option<Scalar>, b: Option<Scalar>)
    ensures
        column_before(a, b, OrderType::Ascending) <==> match (a, b) {
            (None, Some(_)) => true,
            (Some(x), Some(y)) => scalar_before(x, y),
            _ => false,
        },
        column_before(a, b, OrderType::Descending) <==> column_before(b, a, OrderType::Ascending),
{
}

} // verus!
