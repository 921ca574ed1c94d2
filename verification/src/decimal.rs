//! Decimal numbers, their normal form and their sixteen-byte form.
use std::hash::{Hash, Hasher};

use vstd::prelude::*;
use vstd::slice::slice_subrange;

use crate::float::feed_u64;
use crate::wire::{le_from, lemma_byte_ranges, lemma_le_len, lemma_le_value_of_bytes, put_le};

verus! {

/// The largest number of digits after the decimal point.
pub const MAX_DECIMAL_SCALE: u8 = 28;

/// One more than the largest mantissa: mantissas have 96 bits.
pub const DECIMAL_MANTISSA_RANGE: u128 = 0x1_0000_0000_0000_0000_0000_0000;

/// The number `mantissa / 10^scale`, negated where `negative` is set.
#[derive(Clone, Copy, Debug)]
pub struct DecimalNumber {
    pub negative: bool,
    pub mantissa: u128,
    pub scale: u8,
}

/// A decimal number, an infinity, or not a number.
#[derive(Clone, Copy, Debug)]
pub enum Decimal {
    NegativeInf,
    Normalized(DecimalNumber),
    PositiveInf,
    NaN,
}

/// Ten to the power `n`.
pub open spec fn pow10(n: nat) -> nat
    decreases n,
{
    if n == 0 {
        1
    } else {
        10 * pow10((n - 1) as nat)
    }
}

/// `mantissa / 10^scale` without the zeros that end its fraction.
pub open spec fn strip_zeros(mantissa: nat, scale: nat) -> (nat, nat)
    decreases scale,
{
    if scale > 0 && mantissa % 10 == 0 {
        strip_zeros(mantissa / 10, (scale - 1) as nat)
    } else {
        (mantissa, scale)
    }
}

impl DecimalNumber {
    /// The mantissa and the scale are in range.
    pub open spec fn wf(&self) -> bool {
        self.mantissa < DECIMAL_MANTISSA_RANGE && self.scale <= MAX_DECIMAL_SCALE
    }

    /// `self` is less than zero.
    pub open spec fn below_zero(&self) -> bool {
        self.negative && self.mantissa != 0
    }

    /// The two denote the same number.
    pub open spec fn same_number(&self, other: &Self) -> bool {
        &&& self.below_zero() == other.below_zero()
        &&& self.mantissa * pow10(other.scale as nat) == other.mantissa * pow10(self.scale as nat)
    }

    /// The same number with the fewest digits after the point, and zero without a sign.
    pub open spec fn normal_form(&self) -> DecimalNumber {
        let (m, s) = strip_zeros(self.mantissa as nat, self.scale as nat);
        DecimalNumber { negative: self.below_zero(), mantissa: m as u128, scale: s as u8 }
    }

    pub fn normalize(self) -> (r: Self)
        ensures
            r == self.normal_form(),
            self.wf() ==> r.wf(),
    {
        let mut m: u128 = self.mantissa;
        let mut s: u8 = self.scale;
        while s > 0 && m % 10 == 0
            invariant
                strip_zeros(m as nat, s as nat) == strip_zeros(
                    self.mantissa as nat,
                    self.scale as nat,
                ),
                m <= self.mantissa,
                s <= self.scale,
            decreases s,
        {
            m = m / 10;
            s = s - 1;
        }
        DecimalNumber { negative: self.negative && self.mantissa != 0, mantissa: m, scale: s }
    }
}

impl Decimal {
    pub open spec fn wf(&self) -> bool {
        self matches Decimal::Normalized(n) ==> n.wf()
    }

    /// The two are the same number, the same infinity, or both not a number.
    pub open spec fn same_value(&self, other: &Self) -> bool {
        match (self, other) {
            (Decimal::Normalized(a), Decimal::Normalized(b)) => a.same_number(b),
            (Decimal::NegativeInf, Decimal::NegativeInf) => true,
            (Decimal::PositiveInf, Decimal::PositiveInf) => true,
            (Decimal::NaN, Decimal::NaN) => true,
            _ => false,
        }
    }

    pub open spec fn normal_form(&self) -> Decimal {
        match self {
            Decimal::Normalized(n) => Decimal::Normalized(n.normal_form()),
            _ => *self,
        }
    }

    /// The decimal `mantissa / 10^scale`, negated where `negative` is set, if it is in range.
    pub fn try_new(negative: bool, mantissa: u128, scale: u8) -> (r: Option<Self>)
        ensures
            r == (if mantissa < DECIMAL_MANTISSA_RANGE && scale <= MAX_DECIMAL_SCALE {
                Some(Decimal::Normalized(DecimalNumber { negative, mantissa, scale }))
            } else {
                None
            }),
    {
        if mantissa < DECIMAL_MANTISSA_RANGE && scale <= MAX_DECIMAL_SCALE {
            Some(Decimal::Normalized(DecimalNumber { negative, mantissa, scale }))
        } else {
            None
        }
    }

    /// Brings a number into normal form; infinities and not-a-number stay as they are.
    pub fn normalize(&self) -> (r: Self)
        ensures
            r == self.normal_form(),
            self.wf() ==> r.wf(),
    {
        match self {
            Decimal::Normalized(n) => Decimal::Normalized(n.normalize()),
            Decimal::NegativeInf => Decimal::NegativeInf,
            Decimal::PositiveInf => Decimal::PositiveInf,
            Decimal::NaN => Decimal::NaN,
        }
    }

    /// Sixteen bytes that tell every two different representations apart: a tag, a zero byte,
    /// the scale, the sign, and the mantissa with its lowest byte first.
    pub fn unordered_serialize(&self) -> (out: Vec<u8>)
        ensures
            out@ == decimal_bytes(*self),
    {
        let mut out: Vec<u8> = Vec::new();
        let (tag, scale, sign, mantissa): (u8, u8, u8, u128) = match self {
            Decimal::Normalized(n) => (
                0u8,
                n.scale,
                if n.negative {
                    0x80u8
                } else {
                    0u8
                },
                n.mantissa,
            ),
            Decimal::NaN => (1u8, 0u8, 0u8, 0u128),
            Decimal::PositiveInf => (2u8, 0u8, 0u8, 0u128),
            Decimal::NegativeInf => (3u8, 0u8, 0u8, 0u128),
        };
        out.push(tag);
        out.push(0u8);
        out.push(scale);
        out.push(sign);
        assert(out@ =~= seq![tag, 0u8, scale, sign]);
        put_le(&mut out, mantissa, 12);
        out
    }

    /// Reads the sixteen bytes that [`Decimal::unordered_serialize`] writes.
    pub fn unordered_deserialize(bytes: &[u8]) -> (r: Option<Self>)
        requires
            bytes@.len() == 16,
        ensures
            r == decimal_from_bytes(bytes@),
    {
        let tag: u8 = bytes[0];
        let zero: u8 = bytes[1];
        let scale: u8 = bytes[2];
        let sign: u8 = bytes[3];
        let tail = slice_subrange(bytes, 4, 16);
        assert(tail@ =~= bytes@.skip(4));
        let mantissa: u128 = le_from(tail);
        proof {
            lemma_byte_ranges();
        }
        if zero != 0 {
            None
        } else if tag == 0 {
            if scale <= MAX_DECIMAL_SCALE && (sign == 0 || sign == 0x80) {
                Some(
                    Decimal::Normalized(
                        DecimalNumber { negative: sign == 0x80, mantissa, scale },
                    ),
                )
            } else {
                None
            }
        } else if scale != 0 || sign != 0 || mantissa != 0 {
            None
        } else if tag == 1 {
            Some(Decimal::NaN)
        } else if tag == 2 {
            Some(Decimal::PositiveInf)
        } else if tag == 3 {
            Some(Decimal::NegativeInf)
        } else {
            None
        }
    }
}

impl PartialEq for Decimal {
    /// Decimals are compared by value.
    fn eq(&self, other: &Self) -> (r: bool) {
        match (self.normalize(), other.normalize()) {
            (Decimal::Normalized(a), Decimal::Normalized(b)) => a.negative == b.negative
                && a.mantissa == b.mantissa && a.scale == b.scale,
            (Decimal::NegativeInf, Decimal::NegativeInf) => true,
            (Decimal::PositiveInf, Decimal::PositiveInf) => true,
            (Decimal::NaN, Decimal::NaN) => true,
            _ => false,
        }
    }
}

impl vstd::std_specs::cmp::PartialEqSpecImpl for Decimal {
    open spec fn obeys_eq_spec() -> bool {
        true
    }

    open spec fn eq_spec(&self, other: &Self) -> bool {
        self.normal_form() == other.normal_form()
    }
}

impl Eq for Decimal {

}

impl Hash for Decimal {
    /// Decimals that are equal are hashed alike.
    fn hash<H: Hasher>(&self, state: &mut H) {
        match self.normalize() {
            Decimal::NegativeInf => {
                feed_u64(state, 0);
            },
            Decimal::Normalized(n) => {
                feed_u64(
                    state,
                    if n.negative {
                        1
                    } else {
                        2
                    },
                );
                feed_u64(state, (n.mantissa / 0x1_0000_0000_0000_0000) as u64);
                feed_u64(state, (n.mantissa % 0x1_0000_0000_0000_0000) as u64);
                feed_u64(state, n.scale as u64);
            },
            Decimal::PositiveInf => {
                feed_u64(state, 3);
            },
            Decimal::NaN => {
                feed_u64(state, 4);
            },
        }
    }
}

/// The sixteen bytes of a decimal.
pub open spec fn decimal_bytes(d: Decimal) -> Seq<u8> {
    match d {
        Decimal::Normalized(n) => seq![
            0u8,
            0u8,
            n.scale,
            if n.negative {
                0x80u8
            } else {
                0u8
            },
        ] + crate::wire::le_bytes(n.mantissa as nat, 12),
        Decimal::NaN => seq![1u8, 0u8, 0u8, 0u8] + crate::wire::le_bytes(0, 12),
        Decimal::PositiveInf => seq![2u8, 0u8, 0u8, 0u8] + crate::wire::le_bytes(0, 12),
        Decimal::NegativeInf => seq![3u8, 0u8, 0u8, 0u8] + crate::wire::le_bytes(0, 12),
    }
}

/// The decimal that sixteen bytes denote.
pub open spec fn decimal_from_bytes(b: Seq<u8>) -> Option<Decimal> {
    let mantissa = crate::wire::le_value(b.skip(4));
    if b[1] != 0 {
        None
    } else if b[0] == 0 {
        if b[2] <= MAX_DECIMAL_SCALE && (b[3] == 0 || b[3] == 0x80) {
            Some(
                Decimal::Normalized(
                    DecimalNumber {
                        negative: b[3] == 0x80,
                        mantissa: mantissa as u128,
                        scale: b[2],
                    },
                ),
            )
        } else {
            None
        }
    } else if b[2] != 0 || b[3] != 0 || mantissa != 0 {
        None
    } else if b[0] == 1 {
        Some(Decimal::NaN)
    } else if b[0] == 2 {
        Some(Decimal::PositiveInf)
    } else if b[0] == 3 {
        Some(Decimal::NegativeInf)
    } else {
        None
    }
}

/// A decimal in range is read back from its bytes.
pub proof fn decimal_bytes_round_trip(d: Decimal)
    requires
        d.wf(),
    ensures
        decimal_bytes(d).len() == 16,
        decimal_from_bytes(decimal_bytes(d)) == Some(d),
{
    lemma_byte_ranges();
    let m: nat = match d {
        Decimal::Normalized(n) => n.mantissa as nat,
        _ => 0,
    };
    lemma_le_value_of_bytes(m, 12);
    assert(decimal_bytes(d).skip(4) =~= crate::wire::le_bytes(m, 12));
}

pub proof fn lemma_decimal_bytes_len(d: Decimal)
    ensures
        decimal_bytes(d).len() == 16,
{
    match d {
        Decimal::Normalized(n) => {
            lemma_le_len(n.mantissa as nat, 12);
        },
        _ => {
            lemma_le_len(0, 12);
        },
    }
}

pub proof fn lemma_pow10_positive(n: nat)
    ensures
        pow10(n) > 0,
    decreases n,
{
    if n > 0 {
        lemma_pow10_positive((n - 1) as nat);
    }
}

proof fn lemma_strip_zeros(m: nat, s: nat)
    ensures
        ({
            let (m2, s2) = strip_zeros(m, s);
            &&& s2 <= s
            &&& m2 <= m
            &&& (m == 0 <==> m2 == 0)
            &&& (s2 == 0 || m2 % 10 != 0)
            &&& m * pow10(s2) == m2 * pow10(s)
        }),
    decreases s,
{
    if s > 0 && m % 10 == 0 {
        let sp = (s - 1) as nat;
        lemma_strip_zeros(m / 10, sp);
        let (m2, s2) = strip_zeros(m / 10, sp);
        let mp = m / 10;
        assert(m == 10 * mp);
        assert(pow10(s) == 10 * pow10(sp));
        assert(m * pow10(s2) == m2 * pow10(s)) by (nonlinear_arith)
            requires
                mp * pow10(s2) == m2 * pow10(sp),
                m == 10 * mp,
                pow10(s) == 10 * pow10(sp),
        ;
    }
}

/// `m1 / 10^s1 == m2 / 10^s2`, both without trailing zeros, `s1 <= s2`: the two are the same.
proof fn lemma_stripped_unique(m1: nat, s1: nat, m2: nat, s2: nat)
    requires
        s1 <= s2,
        s2 == 0 || m2 % 10 != 0,
        m1 * pow10(s2) == m2 * pow10(s1),
    ensures
        m1 == m2,
        s1 == s2,
    decreases s1,
{
    if s1 > 0 {
        let (t1, t2) = ((s1 - 1) as nat, (s2 - 1) as nat);
        assert(m1 * pow10(t2) == m2 * pow10(t1)) by (nonlinear_arith)
            requires
                m1 * pow10(s2) == m2 * pow10(s1),
                pow10(s2) == 10 * pow10(t2),
                pow10(s1) == 10 * pow10(t1),
        ;
        lemma_stripped_unique(m1, t1, m2, t2);
    } else {
        assert(pow10(0) == 1);
        if s2 > 0 {
            let t2 = (s2 - 1) as nat;
            let k = m1 * pow10(t2);
            assert(m2 == 10 * k) by (nonlinear_arith)
                requires
                    m1 * pow10(s2) == m2 * 1,
                    pow10(s2) == 10 * pow10(t2),
                    k == m1 * pow10(t2),
            ;
        } else {
            assert(m1 == m2) by (nonlinear_arith)
                requires
                    m1 * 1 == m2 * 1,
            ;
        }
    }
}

proof fn lemma_number_normal_forms(a: DecimalNumber, b: DecimalNumber)
    ensures
        a.same_number(&b) <==> a.normal_form() == b.normal_form(),
{
    let (ma, sa) = (a.mantissa as nat, a.scale as nat);
    let (mb, sb) = (b.mantissa as nat, b.scale as nat);
    let (na, ta) = strip_zeros(ma, sa);
    let (nb, tb) = strip_zeros(mb, sb);
    lemma_strip_zeros(ma, sa);
    lemma_strip_zeros(mb, sb);
    lemma_pow10_positive(sa);
    lemma_pow10_positive(sb);
    lemma_pow10_positive(ta);
    lemma_pow10_positive(tb);
    let (psa, psb, pta, ptb) = (pow10(sa), pow10(sb), pow10(ta), pow10(tb));
    if a.same_number(&b) {
        lemma_cross(ma, psa, na, pta, mb, psb, nb, ptb);
        if ta <= tb {
            lemma_stripped_unique(na, ta, nb, tb);
        } else {
            lemma_stripped_unique(nb, tb, na, ta);
        }
    }
    if a.normal_form() == b.normal_form() {
        lemma_cross(na, pta, ma, psa, nb, ptb, mb, psb);
    }
}

/// Replacing both fractions of an equation by equal ones keeps the equation.
proof fn lemma_cross(
    ma: nat,
    pa: nat,
    na: nat,
    qa: nat,
    mb: nat,
    pb: nat,
    nb: nat,
    qb: nat,
)
    requires
        pa > 0,
        pb > 0,
        ma * qa == na * pa,
        mb * qb == nb * pb,
        ma * pb == mb * pa,
    ensures
        na * qb == nb * qa,
{
    // na * qb * pa * pb == ma * qa * qb * pb == mb * qa * qb * pa == nb * qa * pa * pb
    let x = na * qb;
    let y = nb * qa;
    assert((na * qb) * (pa * pb) == (na * pa) * (qb * pb)) by (nonlinear_arith);
    assert((ma * qa) * (qb * pb) == (ma * pb) * (qa * qb)) by (nonlinear_arith);
    assert((mb * pa) * (qa * qb) == (mb * qb) * (qa * pa)) by (nonlinear_arith);
    assert((nb * pb) * (qa * pa) == (nb * qa) * (pa * pb)) by (nonlinear_arith);
    assert(x * (pa * pb) == y * (pa * pb));
    assert(x == y) by (nonlinear_arith)
        requires
            x * (pa * pb) == y * (pa * pb),
            pa > 0,
            pb > 0,
    ;
}

/// Two decimals have the same value exactly when they have the same normal form.
pub proof fn decimal_normal_form_is_canonical(a: Decimal, b: Decimal)
    ensures
        a.same_value(&b) <==> a.normal_form() == b.normal_form(),
{
    if let (Decimal::Normalized(x), Decimal::Normalized(y)) = (a, b) {
        lemma_number_normal_forms(x, y);
    }
}

/// Normalizing keeps the value, and normalizing again changes nothing.
pub proof fn decimal_normalize_keeps_value(a: Decimal)
    ensures
        a.same_value(&a.normal_form()),
        a.normal_form().normal_form() == a.normal_form(),
        a.wf() ==> a.normal_form().wf(),
{
    if let Decimal::Normalized(n) = a {
        lemma_strip_zeros(n.mantissa as nat, n.scale as nat);
    }
}

} // verus!
