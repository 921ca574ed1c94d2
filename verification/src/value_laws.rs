//! Which values are the same value, and what normalizing them keeps.
use vstd::prelude::*;

use crate::array::{Array, ArrayBuilder, ArrayBuilderImpl, ArrayImpl};
use crate::data_chunk::row_hash;
use crate::decimal::{
    decimal_normal_form_is_canonical, decimal_normalize_keeps_value, lemma_pow10_positive, pow10,
    Decimal, DecimalNumber,
};
use crate::float::{F32, F64};
use crate::hash_code::xxhash64;
use crate::hash_key_serde::ScalarRef;
use crate::number_keys::{decimal_rank, signed_mantissa};
use crate::ordered::float_rank;
use crate::scalar::{
    canonical_datum, canonical_row, canonical_scalar, lemma_canonical_row_index,
    lemma_canonical_row_len, normal_datum, normal_row, normal_scalar, row_model, row_typed, typed,
    DataType, Scalar, ScalarImpl,
};
use crate::value_encoding::{datum_row_round_trip, decode_row, row_bytes, ValueEncodingError};

verus! {

/// Two single-precision numbers are the same where their bits agree, where both are a zero with
/// or without a sign, and where both have all bits of the exponent set and a fraction.
pub proof fn f32_values_by_bits(a: F32, b: F32)
    ensures
        a.same_value(&b) <==> {
            ||| a.bits == b.bits
            ||| (a.bits == 0 || a.bits == 0x8000_0000) && (b.bits == 0 || b.bits == 0x8000_0000)
            ||| ((0x7f80_0000 < a.bits < 0x8000_0000 || a.bits > 0xff80_0000) && (0x7f80_0000
                < b.bits < 0x8000_0000 || b.bits > 0xff80_0000))
        },
        a.same_value(&b) <==> a.normal_form() == b.normal_form(),
        a.same_value(&a.normal_form()),
{
}

/// Two double-precision numbers are the same where their bits agree, where both are a zero with
/// or without a sign, and where both have all bits of the exponent set and a fraction.
pub proof fn f64_values_by_bits(a: F64, b: F64)
    ensures
        a.same_value(&b) <==> {
            ||| a.bits == b.bits
            ||| (a.bits == 0 || a.bits == 0x8000_0000_0000_0000) && (b.bits == 0 || b.bits
                == 0x8000_0000_0000_0000)
            ||| ((0x7ff0_0000_0000_0000 < a.bits < 0x8000_0000_0000_0000 || a.bits
                > 0xfff0_0000_0000_0000) && (0x7ff0_0000_0000_0000 < b.bits
                < 0x8000_0000_0000_0000 || b.bits > 0xfff0_0000_0000_0000))
        },
        a.same_value(&b) <==> a.normal_form() == b.normal_form(),
        a.same_value(&a.normal_form()),
{
}

/// Normalizing makes two values the same only where they are two forms of one number: of a float
/// or of a decimal. All other values are told apart by any difference.
pub proof fn normalizing_merges_only_equal_numbers(a: Scalar, b: Scalar)
    ensures
        normal_scalar(a) == normal_scalar(b) <==> match (a, b) {
            (Scalar::Float32(x), Scalar::Float32(y)) => x.same_value(&y),
            (Scalar::Float64(x), Scalar::Float64(y)) => x.same_value(&y),
            (Scalar::Decimal(x), Scalar::Decimal(y)) => x.same_value(&y),
            _ => a == b,
        },
{
    match (a, b) {
        (Scalar::Float32(x), Scalar::Float32(y)) => {
            f32_values_by_bits(x, y);
        },
        (Scalar::Float64(x), Scalar::Float64(y)) => {
            f64_values_by_bits(x, y);
        },
        (Scalar::Decimal(x), Scalar::Decimal(y)) => {
            decimal_normal_form_is_canonical(x, y);
        },
        _ => {},
    }
}

/// Normalizing keeps the value: a float or a decimal stays the same number, and everything else
/// stays as it is.
pub proof fn normalizing_keeps_values(a: Scalar)
    ensures
        match a {
            Scalar::Float32(x) => normal_scalar(a) matches Scalar::Float32(y) && x.same_value(&y),
            Scalar::Float64(x) => normal_scalar(a) matches Scalar::Float64(y) && x.same_value(&y),
            Scalar::Decimal(x) => normal_scalar(a) matches Scalar::Decimal(y) && x.same_value(&y),
            _ => normal_scalar(a) == a,
        },
{
    match a {
        Scalar::Float32(x) => {
            f32_values_by_bits(x, x);
        },
        Scalar::Float64(x) => {
            f64_values_by_bits(x, x);
        },
        Scalar::Decimal(x) => {
            decimal_normalize_keeps_value(x);
        },
        _ => {},
    }
}

/// Two values stand for the same, also within structs and lists, only where they are two forms
/// of one number, where they have the same parts in the same places, or where nothing differs.
pub proof fn canonical_form_merges_only_equal_values(a: Scalar, b: Scalar)
    ensures
        canonical_scalar(a) == canonical_scalar(b) <==> match (a, b) {
            (Scalar::Float32(x), Scalar::Float32(y)) => x.same_value(&y),
            (Scalar::Float64(x), Scalar::Float64(y)) => x.same_value(&y),
            (Scalar::Decimal(x), Scalar::Decimal(y)) => x.same_value(&y),
            (Scalar::Struct(xs), Scalar::Struct(ys)) => xs.len() == ys.len() && forall|i: int|
                #![trigger xs[i], ys[i]]
                0 <= i < xs.len() ==> canonical_datum(xs[i]) == canonical_datum(ys[i]),
            (Scalar::List(xs), Scalar::List(ys)) => xs.len() == ys.len() && forall|i: int|
                #![trigger xs[i], ys[i]]
                0 <= i < xs.len() ==> canonical_datum(xs[i]) == canonical_datum(ys[i]),
            _ => a == b,
        },
{
    normalizing_merges_only_equal_numbers(a, b);
    match (a, b) {
        (Scalar::Struct(xs), Scalar::Struct(ys)) => {
            canonical_rows_by_columns(xs, ys);
        },
        (Scalar::List(xs), Scalar::List(ys)) => {
            canonical_rows_by_columns(xs, ys);
        },
        _ => {},
    }
}

/// A null stands for nothing but a null.
pub proof fn canonical_nulls(a: Option<Scalar>, b: Option<Scalar>)
    ensures
        canonical_datum(a) == canonical_datum(b) <==> match (a, b) {
            (None, None) => true,
            (Some(x), Some(y)) => canonical_scalar(x) == canonical_scalar(y),
            _ => false,
        },
{
}

/// Rows stand for the same exactly when they have as many columns, and each column does.
pub proof fn canonical_rows_by_columns(a: Seq<Option<Scalar>>, b: Seq<Option<Scalar>>)
    ensures
        canonical_row(a) == canonical_row(b) <==> (a.len() == b.len() && forall|i: int|
            #![trigger a[i], b[i]]
            0 <= i < a.len() ==> canonical_datum(a[i]) == canonical_datum(b[i])),
{
    broadcast use {lemma_canonical_row_len, lemma_canonical_row_index};

    assert(canonical_row(a).len() == a.len() && canonical_row(b).len() == b.len());
    if canonical_row(a) == canonical_row(b) {
        assert forall|i: int| #![trigger a[i], b[i]] 0 <= i < a.len() implies canonical_datum(a[i])
            == canonical_datum(b[i]) by {
            assert(canonical_row(a)[i] == canonical_row(b)[i]);
        }
    }
    if a.len() == b.len() && forall|i: int|
        #![trigger a[i], b[i]]
        0 <= i < a.len() ==> canonical_datum(a[i]) == canonical_datum(b[i]) {
        assert forall|i: int| 0 <= i < a.len() implies canonical_row(a)[i] == canonical_row(
            b,
        )[i] by {
            assert(canonical_datum(a[i]) == canonical_datum(b[i]));
        }
        assert(canonical_row(a) =~= canonical_row(b));
    }
}

/// Two datums are the same: both null, two forms of one number, or without any difference.
pub open spec fn same_datum(a: Option<Scalar>, b: Option<Scalar>) -> bool {
    match (a, b) {
        (Some(Scalar::Float32(x)), Some(Scalar::Float32(y))) => x.same_value(&y),
        (Some(Scalar::Float64(x)), Some(Scalar::Float64(y))) => x.same_value(&y),
        (Some(Scalar::Decimal(x)), Some(Scalar::Decimal(y))) => x.same_value(&y),
        _ => a == b,
    }
}

/// Two rows are the same: they have as many columns, and each column has the same datum.
pub open spec fn same_row(a: Seq<Option<Scalar>>, b: Seq<Option<Scalar>>) -> bool {
    &&& a.len() == b.len()
    &&& forall|i: int| #![trigger a[i], b[i]] 0 <= i < a.len() ==> same_datum(a[i], b[i])
}

/// Normalizing makes two rows the same exactly where they are the same, column by column, and
/// keeps each datum.
pub proof fn normalizing_keeps_rows(a: Seq<Option<Scalar>>, b: Seq<Option<Scalar>>)
    ensures
        normal_row(a) == normal_row(b) <==> same_row(a, b),
        same_row(a, normal_row(a)),
{
    assert forall|x: Option<Scalar>, y: Option<Scalar>| #[trigger] normal_datum(x)
        == #[trigger] normal_datum(y) <==> same_datum(x, y) by {
        if let (Some(s), Some(t)) = (x, y) {
            normalizing_merges_only_equal_numbers(s, t);
        }
    }
    assert(normal_row(a).len() == a.len() && normal_row(b).len() == b.len());
    if normal_row(a) == normal_row(b) {
        assert forall|i: int| #![trigger a[i], b[i]] 0 <= i < a.len() implies same_datum(
            a[i],
            b[i],
        ) by {
            assert(normal_row(a)[i] == normal_row(b)[i]);
            assert(normal_datum(a[i]) == normal_datum(b[i]));
        }
    }
    if same_row(a, b) {
        assert forall|i: int| 0 <= i < a.len() implies normal_row(a)[i] == normal_row(b)[i] by {
            assert(same_datum(a[i], b[i]));
            assert(normal_datum(a[i]) == normal_datum(b[i]));
        }
        assert(normal_row(a) =~= normal_row(b));
    }
    let n = normal_row(a);
    assert forall|i: int| #![trigger a[i], n[i]] 0 <= i < a.len() implies same_datum(
        a[i],
        n[i],
    ) by {
        if let Some(s) = a[i] {
            normalizing_keeps_values(s);
        }
    }
}

/// The hash code of a row is that of bytes from which the row can be read back, so that no column
/// is left out.
pub proof fn row_hash_covers_all_columns(row: Seq<Option<Scalar>>, tys: Seq<DataType>)
    requires
        row_typed(row, tys),
    ensures
        exists|b: Seq<u8>, back: Seq<Option<Scalar>>|
            row_hash(row) == #[trigger] xxhash64(b) && decode_row(b, tys) == Ok::<
                _,
                ValueEncodingError,
            >((back, Seq::<u8>::empty())) && #[trigger] same_row(row, back),
{
    let n = normal_row(row);
    normalizing_keeps_rows(row, row);
    assert forall|i: int| #![trigger n[i]] 0 <= i < n.len() implies typed(n[i], tys[i]) by {
        assert(typed(row[i], tys[i]));
        if let Some(Scalar::Decimal(d)) = row[i] {
            decimal_normalize_keeps_value(d);
        }
    }
    datum_row_round_trip(n, tys, Seq::empty());
    let b = row_bytes(n);
    assert(b + Seq::<u8>::empty() =~= b);
    assert(row_hash(row) == xxhash64(b) && same_row(row, n));
}

/// Floating-point numbers are ranked as numbers are: those with a sign come first and in the
/// opposite order of their bits, those without a sign in the order of their bits.
pub proof fn float_rank_follows_bits(a: int, b: int, sign: int)
    requires
        0 <= a < 2 * sign,
        0 <= b < 2 * sign,
    ensures
        float_rank(a, sign) < float_rank(b, sign) <==> {
            ||| a >= sign && b < sign
            ||| a < sign && b < sign && a < b
            ||| a >= sign && b >= sign && a > b
        },
        0 <= float_rank(a, sign) < 2 * sign,
{
}

/// The infinities come before and behind all decimals in range, and what is not a number last.
pub proof fn decimal_infinities_come_first_and_last(d: Decimal)
    requires
        d is Normalized,
    ensures
        decimal_rank(Decimal::NegativeInf) < decimal_rank(d) < decimal_rank(Decimal::PositiveInf)
            < decimal_rank(Decimal::NaN),
{
    if let Decimal::Normalized(n) = d {
        crate::number_keys::lemma_decimal_units_fit(n.normal_form());
    }
}

/// Each datum of a column is the value that the column holds in that place, or null.
pub proof fn columns_hold_their_values(column: ArrayImpl, i: int)
    requires
        0 <= i < column.datums().len(),
    ensures
        ({
            let held = column.datums()[i];
            match column {
                ArrayImpl::Bool(c) => i < c.values@.len() && held == match c.values@[i] {
                    None => None,
                    Some(v) => Some(Scalar::Bool(v)),
                },
                ArrayImpl::Int16(c) => i < c.values@.len() && held == match c.values@[i] {
                    None => None,
                    Some(v) => Some(Scalar::Int16(v)),
                },
                ArrayImpl::Int32(c) => i < c.values@.len() && held == match c.values@[i] {
                    None => None,
                    Some(v) => Some(Scalar::Int32(v)),
                },
                ArrayImpl::Int64(c) => i < c.values@.len() && held == match c.values@[i] {
                    None => None,
                    Some(v) => Some(Scalar::Int64(v)),
                },
                ArrayImpl::Float32(c) => i < c.values@.len() && held == match c.values@[i] {
                    None => None,
                    Some(v) => Some(Scalar::Float32(v)),
                },
                ArrayImpl::Float64(c) => i < c.values@.len() && held == match c.values@[i] {
                    None => None,
                    Some(v) => Some(Scalar::Float64(v)),
                },
                ArrayImpl::Decimal(c) => i < c.values@.len() && held == match c.values@[i] {
                    None => None,
                    Some(v) => Some(Scalar::Decimal(v)),
                },
                ArrayImpl::Date(c) => i < c.values@.len() && held == match c.values@[i] {
                    None => None,
                    Some(v) => Some(Scalar::Date(v)),
                },
                ArrayImpl::Time(c) => i < c.values@.len() && held == match c.values@[i] {
                    None => None,
                    Some(v) => Some(Scalar::Time(v)),
                },
                ArrayImpl::Timestamp(c) => i < c.values@.len() && held == match c.values@[i] {
                    None => None,
                    Some(v) => Some(Scalar::Timestamp(v)),
                },
                ArrayImpl::Serial(c) => i < c.values@.len() && held == match c.values@[i] {
                    None => None,
                    Some(v) => Some(Scalar::Serial(v)),
                },
                ArrayImpl::Utf8(c) => i < c.values@.len() && held == match c.values@[i] {
                    None => None,
                    Some(v) => Some(Scalar::Utf8(v@)),
                },
                ArrayImpl::Bytea(c) => i < c.values@.len() && held == match c.values@[i] {
                    None => None,
                    Some(v) => Some(Scalar::Bytea(v@)),
                },
                ArrayImpl::Jsonb(c) => i < c.values@.len() && held == match c.values@[i] {
                    None => None,
                    Some(v) => Some(Scalar::Jsonb(v@)),
                },
                ArrayImpl::Int256(c) => i < c.values@.len() && held == match c.values@[i] {
                    None => None,
                    Some(v) => Some(Scalar::Int256(v.bytes@)),
                },
                ArrayImpl::Struct(c) => i < c.values@.len() && held == match c.values@[i] {
                    None => None,
                    Some(v) => Some(Scalar::Struct(row_model(v@))),
                },
                ArrayImpl::List(c) => i < c.values@.len() && held == match c.values@[i] {
                    None => None,
                    Some(v) => Some(Scalar::List(row_model(v@))),
                },
            }
        }),
{
}

/// Each datum of a builder is the value that was appended in that place, or null.
pub proof fn builders_hold_their_values(builder: ArrayBuilderImpl, i: int)
    requires
        0 <= i < builder.datums().len(),
    ensures
        ({
            let held = builder.datums()[i];
            match builder {
                ArrayBuilderImpl::Bool(c) => i < c.values@.len() && held == match c.values@[i] {
                    None => None,
                    Some(v) => Some(Scalar::Bool(v)),
                },
                ArrayBuilderImpl::Int16(c) => i < c.values@.len() && held == match c.values@[i] {
                    None => None,
                    Some(v) => Some(Scalar::Int16(v)),
                },
                ArrayBuilderImpl::Int32(c) => i < c.values@.len() && held == match c.values@[i] {
                    None => None,
                    Some(v) => Some(Scalar::Int32(v)),
                },
                ArrayBuilderImpl::Int64(c) => i < c.values@.len() && held == match c.values@[i] {
                    None => None,
                    Some(v) => Some(Scalar::Int64(v)),
                },
                ArrayBuilderImpl::Float32(c) => i < c.values@.len() && held == match c.values@[i] {
                    None => None,
                    Some(v) => Some(Scalar::Float32(v)),
                },
                ArrayBuilderImpl::Float64(c) => i < c.values@.len() && held == match c.values@[i] {
                    None => None,
                    Some(v) => Some(Scalar::Float64(v)),
                },
                ArrayBuilderImpl::Decimal(c) => i < c.values@.len() && held == match c.values@[i] {
                    None => None,
                    Some(v) => Some(Scalar::Decimal(v)),
                },
                ArrayBuilderImpl::Date(c) => i < c.values@.len() && held == match c.values@[i] {
                    None => None,
                    Some(v) => Some(Scalar::Date(v)),
                },
                ArrayBuilderImpl::Time(c) => i < c.values@.len() && held == match c.values@[i] {
                    None => None,
                    Some(v) => Some(Scalar::Time(v)),
                },
                ArrayBuilderImpl::Timestamp(c) => i < c.values@.len() && held == match c.values@[i] {
                    None => None,
                    Some(v) => Some(Scalar::Timestamp(v)),
                },
                ArrayBuilderImpl::Serial(c) => i < c.values@.len() && held == match c.values@[i] {
                    None => None,
                    Some(v) => Some(Scalar::Serial(v)),
                },
                ArrayBuilderImpl::Utf8(c) => i < c.values@.len() && held == match c.values@[i] {
                    None => None,
                    Some(v) => Some(Scalar::Utf8(v@)),
                },
                ArrayBuilderImpl::Bytea(c) => i < c.values@.len() && held == match c.values@[i] {
                    None => None,
                    Some(v) => Some(Scalar::Bytea(v@)),
                },
                ArrayBuilderImpl::Jsonb(c) => i < c.values@.len() && held == match c.values@[i] {
                    None => None,
                    Some(v) => Some(Scalar::Jsonb(v@)),
                },
                ArrayBuilderImpl::Int256(c) => i < c.values@.len() && held == match c.values@[i] {
                    None => None,
                    Some(v) => Some(Scalar::Int256(v.bytes@)),
                },
                ArrayBuilderImpl::Struct(c) => i < c.values@.len() && held == match c.values@[i] {
                    None => None,
                    Some(v) => Some(Scalar::Struct(row_model(v@))),
                },
                ArrayBuilderImpl::List(c) => i < c.values@.len() && held == match c.values@[i] {
                    None => None,
                    Some(v) => Some(Scalar::List(row_model(v@))),
                },
            }
        }),
{
}

/// A value stands for itself.
pub proof fn values_stand_for_themselves(s: ScalarImpl)
    ensures
        match s {
            ScalarImpl::Bool(v) => s.model() == Scalar::Bool(v),
            ScalarImpl::Int16(v) => s.model() == Scalar::Int16(v),
            ScalarImpl::Int32(v) => s.model() == Scalar::Int32(v),
            ScalarImpl::Int64(v) => s.model() == Scalar::Int64(v),
            ScalarImpl::Float32(v) => s.model() == Scalar::Float32(v),
            ScalarImpl::Float64(v) => s.model() == Scalar::Float64(v),
            ScalarImpl::Decimal(v) => s.model() == Scalar::Decimal(v),
            ScalarImpl::Date(v) => s.model() == Scalar::Date(v),
            ScalarImpl::Time(v) => s.model() == Scalar::Time(v),
            ScalarImpl::Timestamp(v) => s.model() == Scalar::Timestamp(v),
            ScalarImpl::Serial(v) => s.model() == Scalar::Serial(v),
            ScalarImpl::Utf8(v) => s.model() == Scalar::Utf8(v@),
            ScalarImpl::Bytea(v) => s.model() == Scalar::Bytea(v@),
            ScalarImpl::Jsonb(v) => s.model() == Scalar::Jsonb(v@),
            ScalarImpl::Int256(v) => s.model() == Scalar::Int256(v.bytes@),
            ScalarImpl::Struct(v) => s.model() == Scalar::Struct(row_model(v@)),
            ScalarImpl::List(v) => s.model() == Scalar::List(row_model(v@)),
        },
{
}

/// Two decimals are the same number exactly when the fractions are equal.
pub proof fn decimals_are_the_same_as_fractions(a: DecimalNumber, b: DecimalNumber)
    ensures
        a.same_number(&b) <==> signed_mantissa(a) * pow10(b.scale as nat) == signed_mantissa(b)
            * pow10(a.scale as nat),
{
    let (m, n) = (a.mantissa as int, b.mantissa as int);
    let (s, t) = (pow10(a.scale as nat) as int, pow10(b.scale as nat) as int);
    lemma_pow10_positive(a.scale as nat);
    lemma_pow10_positive(b.scale as nat);
    assert((-m) * t == -(m * t)) by (nonlinear_arith);
    assert((-n) * s == -(n * s)) by (nonlinear_arith);
    assert(m > 0 ==> m * t > 0) by (nonlinear_arith)
        requires
            t > 0,
    ;
    assert(n > 0 ==> n * s > 0) by (nonlinear_arith)
        requires
            s > 0,
    ;
    assert(m == 0 ==> m * t == 0) by (nonlinear_arith);
    assert(n == 0 ==> n * s == 0) by (nonlinear_arith);
}

} // verus!
