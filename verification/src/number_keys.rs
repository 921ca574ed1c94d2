//! Keys of numbers that are wider than a machine word.
use vstd::prelude::*;

use crate::decimal::{
    decimal_normal_form_is_canonical, decimal_normalize_keeps_value, lemma_pow10_positive, pow10,
    Decimal, DecimalNumber, MAX_DECIMAL_SCALE,
};
use crate::ordered::be_bytes;
use crate::scalar::{clone_bytes, Int256};
use crate::wire::{
    byte_range, le_bytes, le_value, lemma_le_bytes_of_value, lemma_le_value_of_bytes, put_le,
};

verus! {

/// How many bytes hold the digits of a decimal in a key.
pub const DECIMAL_KEY_BYTES: usize = 28;

/// The number without its sign, in units of the last digit that fits behind the point.
pub open spec fn decimal_units(n: DecimalNumber) -> nat {
    n.mantissa as nat * pow10(
        if n.scale <= MAX_DECIMAL_SCALE {
            (MAX_DECIMAL_SCALE - n.scale) as nat
        } else {
            0
        },
    )
}

/// A number that grows with the decimal. The infinities come first and last, and behind them
/// what is not a number.
pub open spec fn decimal_rank(d: Decimal) -> nat {
    let zero = byte_range(DECIMAL_KEY_BYTES as nat);
    match d.normal_form() {
        Decimal::NegativeInf => 0,
        Decimal::Normalized(n) => if n.negative {
            (zero - 1 - decimal_units(n)) as nat
        } else {
            zero + decimal_units(n)
        },
        Decimal::PositiveInf => 2 * zero,
        Decimal::NaN => 2 * zero + 1,
    }
}

/// The number that bytes denote, lowest first, the highest bit being the sign.
pub open spec fn signed_value(b: Seq<u8>) -> int {
    if b.len() > 0 && b.last() >= 0x80 {
        le_value(b) - byte_range(b.len())
    } else {
        le_value(b) as int
    }
}

/// A number that grows with the one that bytes denote.
pub open spec fn signed_rank(b: Seq<u8>) -> nat {
    (signed_value(b) + byte_range(b.len()) / 2) as nat
}

/// The bytes with the highest first are those with the lowest first, the other way round.
pub proof fn lemma_be_le(v: nat, n: nat)
    ensures
        be_bytes(v, n) == le_bytes(v, n).reverse(),
        be_bytes(v, n).len() == n,
    decreases n,
{
    if n > 0 {
        lemma_be_le(v / 256, (n - 1) as nat);
        assert(be_bytes(v, n) =~= le_bytes(v, n).reverse());
    } else {
        assert(be_bytes(v, n) =~= le_bytes(v, n).reverse());
    }
}

pub proof fn lemma_le_push(s: Seq<u8>, b: u8)
    ensures
        le_value(s.push(b)) == le_value(s) + b * byte_range(s.len()),
    decreases s.len(),
{
    let t = s.push(b);
    if s.len() == 0 {
        assert(t.drop_first() =~= s);
        assert(byte_range(0) == 1);
    } else {
        assert(t.drop_first() =~= s.drop_first().push(b));
        lemma_le_push(s.drop_first(), b);
        let m = byte_range((s.len() - 1) as nat);
        assert(256 * (b * m) == b * (256 * m)) by (nonlinear_arith);
    }
}

/// The number that comes of turning every bit.
proof fn lemma_le_complement(s: Seq<u8>, t: Seq<u8>)
    requires
        s.len() == t.len(),
        forall|i: int| 0 <= i < s.len() ==> #[trigger] t[i] == 255 - s[i],
    ensures
        le_value(t) == byte_range(s.len()) - 1 - le_value(s),
    decreases s.len(),
{
    if s.len() > 0 {
        let (p, q) = (s.drop_first(), t.drop_first());
        assert forall|i: int| 0 <= i < p.len() implies #[trigger] q[i] == 255 - p[i] by {
            assert(t[i + 1] == 255 - s[i + 1]);
        }
        lemma_le_complement(p, q);
    }
}

pub proof fn lemma_decimal_units_fit(n: DecimalNumber)
    ensures
        decimal_units(n) + 1 < byte_range(DECIMAL_KEY_BYTES as nat),
        byte_range((DECIMAL_KEY_BYTES + 1) as nat) == 256 * byte_range(DECIMAL_KEY_BYTES as nat),
{
    reveal_with_fuel(pow10, 30);
    reveal_with_fuel(byte_range, 30);
    let e: nat = if n.scale <= MAX_DECIMAL_SCALE {
        (MAX_DECIMAL_SCALE - n.scale) as nat
    } else {
        0
    };
    lemma_pow10_increases(e, 28);
    let (m, p, q) = (n.mantissa as nat, pow10(e), pow10(28));
    assert(m * p <= 0xffff_ffff_ffff_ffff_ffff_ffff_ffff_ffff * q) by (nonlinear_arith)
        requires
            m <= 0xffff_ffff_ffff_ffff_ffff_ffff_ffff_ffff,
            p <= q,
    ;
}

proof fn lemma_pow10_increases(a: nat, b: nat)
    requires
        a <= b,
    ensures
        pow10(a) <= pow10(b),
    decreases b,
{
    if a < b {
        lemma_pow10_increases(a, (b - 1) as nat);
    }
}

/// Ten times the number, in as many bytes.
fn times_ten(digits: &mut Vec<u8>)
    requires
        10 * le_value(old(digits)@) < byte_range(old(digits)@.len()),
    ensures
        final(digits)@.len() == old(digits)@.len(),
        le_value(final(digits)@) == 10 * le_value(old(digits)@),
{
    let ghost was = digits@;
    let n: usize = digits.len();
    let mut i: usize = 0;
    let mut carry: u16 = 0;
    assert(was.take(0) =~= Seq::<u8>::empty());
    assert(digits@.take(0) =~= Seq::<u8>::empty());
    while i < n
        invariant
            i <= n,
            n == was.len(),
            digits@.len() == n,
            carry < 10,
            forall|j: int| i <= j < n ==> digits@[j] == was[j],
            le_value(digits@.take(i as int)) + carry * byte_range(i as nat) == 10 * le_value(
                was.take(i as int),
            ),
        decreases n - i,
    {
        let ghost low = digits@.take(i as int);
        let t: u16 = digits[i] as u16 * 10 + carry;
        let ghost c = carry;
        let d: u8 = (t % 256) as u8;
        digits.set(i, d);
        carry = t / 256;
        proof {
            assert(digits@.take(i + 1) =~= low.push(d));
            assert(was.take(i + 1) =~= was.take(i as int).push(was[i as int]));
            lemma_le_push(low, d);
            lemma_le_push(was.take(i as int), was[i as int]);
            let (w, k, r) = (was[i as int] as int, carry as int, byte_range(i as nat) as int);
            assert(d + 256 * k == 10 * w + c);
            assert(d * r + k * (256 * r) == 10 * (w * r) + c * r) by (nonlinear_arith)
                requires
                    d + 256 * k == 10 * w + c,
            ;
        }
        i = i + 1;
    }
    proof {
        assert(digits@.take(n as int) =~= digits@);
        assert(was.take(n as int) =~= was);
        let (k, r) = (carry as int, byte_range(n as nat) as int);
        assert(k == 0) by (nonlinear_arith)
            requires
                k >= 0,
                r >= 0,
                k * r < r,
        ;
        assert(k * r == 0) by (nonlinear_arith)
            requires
                k == 0,
        ;
    }
}

/// Turns every bit.
fn turn_bits(digits: &mut Vec<u8>)
    ensures
        final(digits)@.len() == old(digits)@.len(),
        le_value(final(digits)@) == byte_range(old(digits)@.len()) - 1 - le_value(old(digits)@),
{
    let ghost was = digits@;
    let n: usize = digits.len();
    let mut i: usize = 0;
    while i < n
        invariant
            i <= n,
            n == was.len(),
            digits@.len() == n,
            forall|j: int| i <= j < n ==> digits@[j] == was[j],
            forall|j: int| 0 <= j < i ==> #[trigger] digits@[j] == 255 - was[j],
        decreases n - i,
    {
        let b: u8 = digits[i];
        digits.set(i, 255 - b);
        i = i + 1;
    }
    proof {
        lemma_le_complement(was, digits@);
    }
}

/// The bytes, the other way round.
fn put_reversed(buf: &mut Vec<u8>, digits: &Vec<u8>)
    ensures
        final(buf)@ == old(buf)@ + digits@.reverse(),
{
    let mut i: usize = digits.len();
    while i > 0
        invariant
            i <= digits@.len(),
            buf@ =~= old(buf)@ + digits@.reverse().take(digits@.len() - i),
        decreases i,
    {
        i = i - 1;
        buf.push(digits[i]);
    }
    assert(digits@.reverse().take(digits@.len() as int) =~= digits@.reverse());
}

/// Appends the bytes of a decimal in a key.
pub fn put_decimal(buf: &mut Vec<u8>, d: &Decimal)
    ensures
        final(buf)@ == old(buf)@ + be_bytes(decimal_rank(*d), (DECIMAL_KEY_BYTES + 1) as nat),
{
    let ghost zero = byte_range(DECIMAL_KEY_BYTES as nat);
    let mut digits: Vec<u8> = Vec::new();
    let top: u8 = match d.normalize() {
        Decimal::Normalized(n) => {
            put_le(&mut digits, n.mantissa, DECIMAL_KEY_BYTES);
            let mut s: u8 = n.scale;
            proof {
                lemma_decimal_units_fit(n);
                assert(pow10(0) == 1);
                assert(n.mantissa as nat * 1 == n.mantissa);
                reveal_with_fuel(byte_range, 30);
                lemma_le_value_of_bytes(n.mantissa as nat, DECIMAL_KEY_BYTES as nat);
            }
            while s < MAX_DECIMAL_SCALE
                invariant
                    digits@.len() == DECIMAL_KEY_BYTES,
                    zero == byte_range(DECIMAL_KEY_BYTES as nat),
                    decimal_units(n) < zero,
                    s < MAX_DECIMAL_SCALE ==> le_value(digits@) * pow10(
                        (MAX_DECIMAL_SCALE - s) as nat,
                    ) == decimal_units(n),
                    s >= MAX_DECIMAL_SCALE ==> le_value(digits@) == decimal_units(n),
                decreases MAX_DECIMAL_SCALE - s,
            {
                proof {
                    let (v, p) = (le_value(digits@), pow10((MAX_DECIMAL_SCALE - s - 1) as nat));
                    lemma_pow10_positive((MAX_DECIMAL_SCALE - s - 1) as nat);
                    assert(pow10((MAX_DECIMAL_SCALE - s) as nat) == 10 * p);
                    assert(v * (10 * p) == (10 * v) * p) by (nonlinear_arith);
                    assert(10 * v <= (10 * v) * p) by (nonlinear_arith)
                        requires
                            p > 0,
                    ;
                    if s == MAX_DECIMAL_SCALE - 1 {
                        assert(pow10(0) == 1);
                        assert((10 * v) * 1 == 10 * v);
                    }
                }
                times_ten(&mut digits);
                s = s + 1;
            }
            if n.negative {
                turn_bits(&mut digits);
                0
            } else {
                1
            }
        },
        Decimal::NegativeInf => {
            put_le(&mut digits, 0, DECIMAL_KEY_BYTES);
            0
        },
        Decimal::PositiveInf => {
            put_le(&mut digits, 0, DECIMAL_KEY_BYTES);
            2
        },
        Decimal::NaN => {
            put_le(&mut digits, 1, DECIMAL_KEY_BYTES);
            2
        },
    };
    proof {
        reveal_with_fuel(byte_range, 30);
        lemma_le_value_of_bytes(0, DECIMAL_KEY_BYTES as nat);
        lemma_le_value_of_bytes(1, DECIMAL_KEY_BYTES as nat);
        lemma_le_push(digits@, top);
    }
    digits.push(top);
    proof {
        assert(le_value(digits@) == decimal_rank(*d));
        lemma_le_bytes_of_value(digits@);
        lemma_be_le(le_value(digits@), digits@.len());
    }
    put_reversed(buf, &digits);
}

/// Appends the bytes of a 256-bit integer in a key.
pub fn put_int256(buf: &mut Vec<u8>, v: &Int256)
    ensures
        final(buf)@ == old(buf)@ + be_bytes(signed_rank(v.bytes@), 32),
{
    let mut digits: Vec<u8> = clone_bytes(v.bytes.as_slice());
    let ghost (was, low) = (v.bytes@, v.bytes@.drop_last());
    let top: u8 = digits[31];
    let turned: u8 = if top < 0x80 {
        top + 0x80
    } else {
        top - 0x80
    };
    digits.set(31, turned);
    proof {
        assert(was =~= low.push(top));
        assert(digits@ =~= low.push(turned));
        lemma_le_push(low, top);
        lemma_le_push(low, turned);
        let r = byte_range(31) as int;
        assert(byte_range(32) == 256 * r);
        assert((256 * r) / 2 == 128 * r);
        let (a, b) = (top as int, turned as int);
        assert(top < 0x80 ==> b * r == a * r + 128 * r) by (nonlinear_arith)
            requires
                a == top,
                top < 0x80 ==> b == a + 128,
        ;
        assert(top >= 0x80 ==> b * r == a * r - 128 * r) by (nonlinear_arith)
            requires
                a == top,
                top >= 0x80 ==> b == a - 128,
        ;
        assert(le_value(digits@) == signed_rank(was));
        lemma_le_bytes_of_value(digits@);
        lemma_be_le(le_value(digits@), 32);
    }
    put_reversed(buf, &digits);
}

/// Numbers of as many bytes are the same where they have the same value.
pub proof fn signed_value_is_injective(a: Seq<u8>, b: Seq<u8>)
    requires
        a.len() == b.len(),
        signed_value(a) == signed_value(b),
    ensures
        a == b,
{
    lemma_le_bytes_of_value(a);
    lemma_le_bytes_of_value(b);
}

/// The rank of a number is its distance from the smallest number.
pub proof fn signed_rank_is_value(a: Seq<u8>)
    ensures
        signed_rank(a) == signed_value(a) + byte_range(a.len()) / 2,
        signed_rank(a) < byte_range(a.len()),
{
    if a.len() > 0 {
        let low = a.drop_last();
        assert(a =~= low.push(a.last()));
        lemma_le_push(low, a.last());
        lemma_le_bytes_of_value(low);
        lemma_le_bytes_of_value(a);
        let (r, t) = (byte_range(low.len()) as int, a.last() as int);
        assert(byte_range(a.len()) == 256 * r);
        assert((256 * r) / 2 == 128 * r);
        assert(t >= 128 ==> t * r >= 128 * r) by (nonlinear_arith)
            requires
                r >= 0,
        ;
        assert(t < 128 ==> t * r + r <= 128 * r) by (nonlinear_arith)
            requires
                r >= 0,
        ;
    }
}

/// The rank of a decimal fits into the bytes of its key.
pub proof fn decimal_rank_fits(d: Decimal)
    ensures
        decimal_rank(d) < byte_range((DECIMAL_KEY_BYTES + 1) as nat),
{
    reveal_with_fuel(byte_range, 30);
    if let Decimal::Normalized(n) = d.normal_form() {
        lemma_decimal_units_fit(n);
    }
}

proof fn lemma_pow10_sum(a: nat, b: nat)
    ensures
        pow10(a) * pow10(b) == pow10(a + b),
    decreases a,
{
    if a == 0 {
        assert(pow10(0) == 1);
        assert(1 * pow10(b) == pow10(b));
    } else {
        let c = (a - 1) as nat;
        lemma_pow10_sum(c, b);
        assert((10 * pow10(c)) * pow10(b) == 10 * (pow10(c) * pow10(b))) by (nonlinear_arith);
    }
}

/// As many units are the same number.
proof fn lemma_same_units(m: DecimalNumber, n: DecimalNumber)
    requires
        m.wf(),
        n.wf(),
        decimal_units(m) == decimal_units(n),
    ensures
        m.mantissa * pow10(n.scale as nat) == n.mantissa * pow10(m.scale as nat),
{
    let (x, y) = (m.mantissa as int, n.mantissa as int);
    let (s, t) = (pow10(m.scale as nat) as int, pow10(n.scale as nat) as int);
    let (p, q) = (
        pow10((MAX_DECIMAL_SCALE - m.scale) as nat) as int,
        pow10((MAX_DECIMAL_SCALE - n.scale) as nat) as int,
    );
    let one = pow10(MAX_DECIMAL_SCALE as nat) as int;
    lemma_pow10_sum((MAX_DECIMAL_SCALE - m.scale) as nat, m.scale as nat);
    lemma_pow10_sum((MAX_DECIMAL_SCALE - n.scale) as nat, n.scale as nat);
    lemma_pow10_positive(MAX_DECIMAL_SCALE as nat);
    assert(p * s == one && q * t == one && x * p == y * q);
    assert((x * t) * (p * s) == (x * p) * (s * t)) by (nonlinear_arith);
    assert((y * s) * (q * t) == (y * q) * (s * t)) by (nonlinear_arith);
    assert(x * t == y * s) by (nonlinear_arith)
        requires
            (x * t) * one == (y * s) * one,
            one > 0,
    ;
}

/// Decimals in range with the same rank have the same value.
pub proof fn decimal_rank_is_injective(a: Decimal, b: Decimal)
    requires
        a.wf(),
        b.wf(),
        decimal_rank(a) == decimal_rank(b),
    ensures
        a.normal_form() == b.normal_form(),
{
    decimal_normalize_keeps_value(a);
    decimal_normalize_keeps_value(b);
    let (x, y) = (a.normal_form(), b.normal_form());
    reveal_with_fuel(byte_range, 30);
    if let Decimal::Normalized(m) = x {
        lemma_decimal_units_fit(m);
    }
    if let Decimal::Normalized(n) = y {
        lemma_decimal_units_fit(n);
    }
    if let (Decimal::Normalized(m), Decimal::Normalized(n)) = (x, y) {
        assert(decimal_units(m) == decimal_units(n));
        lemma_same_units(m, n);
        assert(m.negative == n.negative);
        decimal_normal_form_is_canonical(x, y);
    }
}

/// The mantissa with its sign.
pub open spec fn signed_mantissa(n: DecimalNumber) -> int {
    if n.negative {
        -(n.mantissa as int)
    } else {
        n.mantissa as int
    }
}

/// The rank of numbers follows their values: the fractions are compared.
pub proof fn decimal_rank_follows_value(a: DecimalNumber, b: DecimalNumber)
    requires
        a.wf(),
        b.wf(),
    ensures
        decimal_rank(Decimal::Normalized(a)) < decimal_rank(Decimal::Normalized(b))
            <==> signed_mantissa(a) * pow10(b.scale as nat) < signed_mantissa(b) * pow10(
            a.scale as nat,
        ),
{
    let (x, y) = (a.normal_form(), b.normal_form());
    lemma_signed_units(a);
    lemma_signed_units(b);
    lemma_decimal_units_fit(x);
    lemma_decimal_units_fit(y);
    let (u, v) = (signed_units(x), signed_units(y));
    let (m, n) = (signed_mantissa(a), signed_mantissa(b));
    let (s, t) = (pow10(a.scale as nat) as int, pow10(b.scale as nat) as int);
    let one = pow10(MAX_DECIMAL_SCALE as nat) as int;
    lemma_pow10_positive(a.scale as nat);
    lemma_pow10_positive(b.scale as nat);
    lemma_pow10_positive(MAX_DECIMAL_SCALE as nat);
    assert(u < v <==> (u * s) * t < (v * t) * s) by (nonlinear_arith)
        requires
            s > 0,
            t > 0,
    ;
    assert((u * s) * t < (v * t) * s <==> m * t < n * s) by (nonlinear_arith)
        requires
            one > 0,
            u * s == m * one,
            v * t == n * one,
    ;
}

/// The number in units of the last digit that fits behind the point.
spec fn signed_units(n: DecimalNumber) -> int {
    if n.negative {
        -(decimal_units(n) as int)
    } else {
        decimal_units(n) as int
    }
}

/// The normal form of a number has as many units as the number.
proof fn lemma_signed_units(a: DecimalNumber)
    requires
        a.wf(),
    ensures
        a.normal_form().negative ==> decimal_units(a.normal_form()) > 0,
        signed_units(a.normal_form()) * pow10(a.scale as nat) == signed_mantissa(a) * pow10(
            MAX_DECIMAL_SCALE as nat,
        ),
{
    let x = a.normal_form();
    decimal_normalize_keeps_value(Decimal::Normalized(a));
    assert(a.same_number(&x) && x.wf() && x.normal_form() == x);
    let e = (MAX_DECIMAL_SCALE - x.scale) as nat;
    lemma_pow10_sum(e, x.scale as nat);
    lemma_pow10_positive(e);
    let (m, n) = (a.mantissa as int, x.mantissa as int);
    let (s, t, p) = (pow10(a.scale as nat) as int, pow10(x.scale as nat) as int, pow10(e) as int);
    let one = pow10(MAX_DECIMAL_SCALE as nat) as int;
    assert(m * t == n * s && p * t == one);
    assert((n * p) * s == (n * s) * p) by (nonlinear_arith);
    assert((m * t) * p == m * (p * t)) by (nonlinear_arith);
    assert((-(n * p)) * s == -((n * p) * s)) by (nonlinear_arith);
    assert((-m) * one == -(m * one)) by (nonlinear_arith);
    if x.negative {
        assert(n * p > 0) by (nonlinear_arith)
            requires
                n > 0,
                p > 0,
        ;
    }
    if m == 0 {
        lemma_pow10_positive(a.scale as nat);
        assert(n == 0) by (nonlinear_arith)
            requires
                m * t == n * s,
                m == 0,
                s > 0,
        ;
        assert(0 * p == 0 && 0 * s == 0 && 0 * one == 0);
    }
}

} // verus!
