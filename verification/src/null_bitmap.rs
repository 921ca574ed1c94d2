//! Bitmaps that mark which columns of a key are null.
use vstd::prelude::*;
use vstd::std_specs::cmp::PartialEqSpec;

use fixedbitset::FixedBitSet;
use smallbitset::Set64;

verus! {

/// The number of columns that a [`StackNullBitmap`] has room for.
pub const MAX_GROUP_KEYS_ON_STACK: usize = 64;

/// The number of columns that a key of fixed size takes.
pub const MAX_FIXED_KEY_COLUMNS: usize = 8;

/// Values that know how many bytes they keep outside themselves.
pub trait EstimateSize {
    spec fn heap_size(&self) -> nat;

    fn estimated_heap_size(&self) -> (n: usize)
        requires
            self.heap_size() <= usize::MAX,
        ensures
            n == self.heap_size(),
    ;
}

/// A set of bits on the heap, as the bit set crate has it: it has a length, and can grow.
#[verifier::external_type_specification]
#[verifier::external_body]
pub struct ExFixedBitSet(FixedBitSet);

/// The bits of a `FixedBitSet`, as many as its length.
pub uninterp spec fn fixed_bits(b: FixedBitSet) -> Seq<bool>;

/// `FixedBitSet::new`: a set of length zero.
#[verifier::external_body]
fn fixed_new() -> (r: FixedBitSet)
    ensures
        fixed_bits(r) == Seq::<bool>::empty(),
{
    FixedBitSet::new()
}

/// `FixedBitSet::with_capacity`: a set of the given length with all bits clear.
#[verifier::external_body]
fn fixed_with_capacity(bits: usize) -> (r: FixedBitSet)
    ensures
        fixed_bits(r) == Seq::new(bits as nat, |i: int| false),
{
    FixedBitSet::with_capacity(bits)
}

/// `FixedBitSet::is_empty`: whether the length is zero, whatever the bits are.
#[verifier::external_body]
fn fixed_is_empty(b: &FixedBitSet) -> (r: bool)
    ensures
        r == (fixed_bits(*b).len() == 0),
{
    b.is_empty()
}

/// `FixedBitSet::grow`: a set that is shorter gets the given length, with clear bits at the
/// end; one that is not stays as it is.
#[verifier::external_body]
fn fixed_grow(b: &mut FixedBitSet, bits: usize)
    ensures
        fixed_bits(*final(b)) == (if bits > fixed_bits(*old(b)).len() {
            fixed_bits(*old(b)) + Seq::new(
                (bits - fixed_bits(*old(b)).len()) as nat,
                |i: int| false,
            )
        } else {
            fixed_bits(*old(b))
        }),
{
    b.grow(bits)
}

/// `FixedBitSet::insert`: sets one bit. It panics on a bit beyond the length.
#[verifier::external_body]
fn fixed_insert(b: &mut FixedBitSet, bit: usize)
    requires
        bit < fixed_bits(*old(b)).len(),
    ensures
        fixed_bits(*final(b)) == fixed_bits(*old(b)).update(bit as int, true),
{
    b.insert(bit)
}

/// `FixedBitSet::contains`: whether a bit is set. Bits beyond the length are not.
#[verifier::external_body]
fn fixed_contains(b: &FixedBitSet, bit: usize) -> (r: bool)
    ensures
        r == (bit < fixed_bits(*b).len() && fixed_bits(*b)[bit as int]),
{
    b.contains(bit)
}

/// `FixedBitSet::is_subset`: whether every bit that is set in the first is set in the second.
#[verifier::external_body]
fn fixed_is_subset(a: &FixedBitSet, b: &FixedBitSet) -> (r: bool)
    ensures
        r == true_positions(fixed_bits(*a)).subset_of(true_positions(fixed_bits(*b))),
{
    a.is_subset(b)
}

/// `==` on `FixedBitSet`: whether the two have the same length and the same bits.
#[verifier::external_body]
fn fixed_eq(a: &FixedBitSet, b: &FixedBitSet) -> (r: bool)
    ensures
        r == (fixed_bits(*a) == fixed_bits(*b)),
{
    a == b
}

/// `FixedBitSet::clone`: a set of the same length with the same bits.
#[verifier::external_body]
fn fixed_clone(a: &FixedBitSet) -> (r: FixedBitSet)
    ensures
        fixed_bits(r) == fixed_bits(*a),
{
    a.clone()
}

/// `FixedBitSet::as_slice`, its number of blocks: one for every 32 bits of the length, the
/// last of them perhaps in part.
#[verifier::external_body]
fn fixed_blocks(a: &FixedBitSet) -> (n: usize)
    ensures
        n == (fixed_bits(*a).len() + 31) / 32,
{
    a.as_slice().len()
}

/// A set of numbers below 64 in one machine word.
#[verifier::external_type_specification]
#[verifier::external_body]
pub struct ExSet64(Set64);

/// The members of a `Set64`.
pub uninterp spec fn set64_members(s: Set64) -> Set<int>;

/// `Set64::empty`: the set without members.
#[verifier::external_body]
fn set64_empty() -> (r: Set64)
    ensures
        set64_members(r) == Set::<int>::empty(),
{
    Set64::empty()
}

/// `Set64::is_empty`: whether the set has no members.
#[verifier::external_body]
fn set64_is_empty(s: &Set64) -> (r: bool)
    ensures
        r == (set64_members(*s) == Set::<int>::empty()),
{
    s.is_empty()
}

/// `Set64::add_inplace`: adds a member. It panics on numbers from 64 on.
#[verifier::external_body]
fn set64_insert(s: &mut Set64, x: usize)
    requires
        x < 64,
    ensures
        set64_members(*final(s)) == set64_members(*old(s)).insert(x as int),
{
    s.add_inplace(x);
}

/// `Set64::contains`: whether a number is a member. It panics on numbers from 64 on.
#[verifier::external_body]
fn set64_contains(s: &Set64, x: usize) -> (r: bool)
    requires
        x < 64,
    ensures
        r == set64_members(*s).contains(x as int),
{
    s.contains(x)
}

/// `Set64::contains_all`: whether all members of the second set are members of the first.
#[verifier::external_body]
fn set64_contains_all(s: &Set64, other: &Set64) -> (r: bool)
    ensures
        r == set64_members(*other).subset_of(set64_members(*s)),
{
    s.contains_all(*other)
}

/// `==` on `Set64`: whether the two sets have the same members.
#[verifier::external_body]
fn set64_eq(a: &Set64, b: &Set64) -> (r: bool)
    ensures
        r == (set64_members(*a) == set64_members(*b)),
{
    a == b
}

/// The positions at which `v` is true.
pub open spec fn true_positions(v: Seq<bool>) -> Set<int> {
    Set::new(|i: int| 0 <= i < v.len() && v[i])
}

/// A set of column positions.
///
/// A bitmap that was made by [`NullBitmap::empty`] and filled by [`NullBitmap::set_true`] is
/// tight: nothing but its set positions tells it from another.
pub trait NullBitmap: EstimateSize + Clone + PartialEq + Sized {
    /// The positions that are set.
    spec fn bits(&self) -> Set<int>;

    /// The representation holds nothing but the set positions.
    spec fn tight(&self) -> bool;

    /// What [`NullBitmap::is_empty`] says.
    spec fn reports_empty(&self) -> bool;

    /// The position can be set.
    spec fn can_hold(idx: int) -> bool;

    /// The position can be asked for.
    spec fn can_ask(idx: int) -> bool;

    fn empty() -> (r: Self)
        ensures
            r.bits() == Set::<int>::empty(),
            r.tight(),
    ;

    fn is_empty(&self) -> (r: bool)
        ensures
            r == self.reports_empty(),
    ;

    fn set_true(&mut self, idx: usize)
        requires
            Self::can_hold(idx as int),
        ensures
            final(self).bits() == old(self).bits().insert(idx as int),
            old(self).tight() ==> final(self).tight(),
    ;

    fn contains(&self, x: usize) -> (r: bool)
        requires
            Self::can_ask(x as int),
        ensures
            r == self.bits().contains(x as int),
    ;

    fn is_subset(&self, other: &Self) -> (r: bool)
        ensures
            r == self.bits().subset_of(other.bits()),
    ;

    fn from_bool_vec(value: Vec<bool>) -> (r: Self)
        requires
            forall|i: int| 0 <= i < value@.len() && #[trigger] value@[i] ==> Self::can_hold(i),
        ensures
            r.bits() == true_positions(value@),
    ;

    /// There is room for the columns of every key of fixed size.
    proof fn room_law()
        ensures
            forall|i: int|
                0 <= i < MAX_FIXED_KEY_COLUMNS ==> #[trigger] Self::can_hold(i) && Self::can_ask(i),
    ;

    /// `==` tells bitmaps with different positions apart, and tight ones by nothing else.
    proof fn equality_law(a: Self, b: Self)
        ensures
            Self::obeys_eq_spec(),
            a.eq_spec(&b) ==> a.bits() == b.bits(),
            a.tight() && b.tight() ==> (a.eq_spec(&b) <==> a.bits() == b.bits()),
    ;

    /// A tight bitmap reports to be empty exactly when no position is set.
    proof fn emptiness_law(a: Self)
        ensures
            a.tight() ==> (a.reports_empty() <==> a.bits() == Set::<int>::empty()),
    ;

    /// A clone is the same bitmap.
    proof fn clone_law(a: Self, b: Self)
        requires
            cloned(a, b),
        ensures
            a.bits() == b.bits(),
            a.tight() == b.tight(),
    ;
}

/// A bitmap on the heap, for any number of columns.
#[derive(Debug)]
pub struct HeapNullBitmap {
    inner: FixedBitSet,
}

/// A bitmap in one machine word, for up to [`MAX_GROUP_KEYS_ON_STACK`] columns.
#[derive(Debug)]
pub struct StackNullBitmap {
    inner: Set64,
}

impl HeapNullBitmap {
    /// The bits, as many as the bitmap has room for.
    pub closed spec fn repr(&self) -> Seq<bool> {
        fixed_bits(self.inner)
    }

    pub fn with_capacity(n: usize) -> (r: Self)
        ensures
            r.repr() == Seq::new(n as nat, |i: int| false),
            r.bits() == Set::<int>::empty(),
    {
        let r = HeapNullBitmap { inner: fixed_with_capacity(n) };
        assert(r.bits() =~= Set::<int>::empty());
        r
    }
}

impl EstimateSize for StackNullBitmap {
    open spec fn heap_size(&self) -> nat {
        0
    }

    fn estimated_heap_size(&self) -> (n: usize) {
        0
    }
}

impl EstimateSize for HeapNullBitmap {
    open spec fn heap_size(&self) -> nat {
        (self.repr().len() + 31) / 32 * 4
    }

    fn estimated_heap_size(&self) -> (n: usize) {
        fixed_blocks(&self.inner) * 4
    }
}

impl Clone for StackNullBitmap {
    fn clone(&self) -> (r: Self)
        ensures
            r == *self,
    {
        StackNullBitmap { inner: self.inner }
    }
}

impl Clone for HeapNullBitmap {
    fn clone(&self) -> (r: Self)
        ensures
            r.repr() == self.repr(),
    {
        HeapNullBitmap { inner: fixed_clone(&self.inner) }
    }
}

impl PartialEq for StackNullBitmap {
    fn eq(&self, other: &Self) -> (r: bool) {
        set64_eq(&self.inner, &other.inner)
    }
}

impl vstd::std_specs::cmp::PartialEqSpecImpl for StackNullBitmap {
    open spec fn obeys_eq_spec() -> bool {
        true
    }

    open spec fn eq_spec(&self, other: &Self) -> bool {
        self.bits() == other.bits()
    }
}

impl PartialEq for HeapNullBitmap {
    fn eq(&self, other: &Self) -> (r: bool) {
        fixed_eq(&self.inner, &other.inner)
    }
}

impl vstd::std_specs::cmp::PartialEqSpecImpl for HeapNullBitmap {
    open spec fn obeys_eq_spec() -> bool {
        true
    }

    open spec fn eq_spec(&self, other: &Self) -> bool {
        self.repr() == other.repr()
    }
}

impl From<Vec<bool>> for HeapNullBitmap {
    fn from(value: Vec<bool>) -> (r: Self)
        ensures
            r.repr() == value@,
    {
        assert(value@.len() == value.len());
        HeapNullBitmap::from_bool_vec(value)
    }
}

impl vstd::std_specs::convert::FromSpecImpl<Vec<bool>> for HeapNullBitmap {
    open spec fn obeys_from_spec() -> bool {
        false
    }

    open spec fn from_spec(value: Vec<bool>) -> Self {
        choose|b: Self| #[trigger] b.repr() == value@
    }
}

impl NullBitmap for StackNullBitmap {
    closed spec fn bits(&self) -> Set<int> {
        set64_members(self.inner)
    }

    open spec fn tight(&self) -> bool {
        true
    }

    open spec fn reports_empty(&self) -> bool {
        self.bits() == Set::<int>::empty()
    }

    open spec fn can_hold(idx: int) -> bool {
        idx < MAX_GROUP_KEYS_ON_STACK
    }

    open spec fn can_ask(idx: int) -> bool {
        idx < MAX_GROUP_KEYS_ON_STACK
    }

    fn empty() -> (r: Self) {
        StackNullBitmap { inner: set64_empty() }
    }

    fn is_empty(&self) -> (r: bool) {
        set64_is_empty(&self.inner)
    }

    fn set_true(&mut self, idx: usize) {
        set64_insert(&mut self.inner, idx);
    }

    fn contains(&self, x: usize) -> (r: bool) {
        set64_contains(&self.inner, x)
    }

    fn is_subset(&self, other: &Self) -> (r: bool) {
        set64_contains_all(&other.inner, &self.inner)
    }

    fn from_bool_vec(value: Vec<bool>) -> (r: Self) {
        let mut bitmap = StackNullBitmap::empty();
        let mut idx: usize = 0;
        assert(bitmap.bits() =~= true_positions(value@.take(0)));
        while idx < value.len()
            invariant
                idx <= value.len(),
                bitmap.bits() == true_positions(value@.take(idx as int)),
                forall|i: int| 0 <= i < value@.len() && #[trigger] value@[i] ==> Self::can_hold(i),
            decreases value.len() - idx,
        {
            let ghost before = bitmap.bits();
            if value[idx] {
                bitmap.set_true(idx);
            }
            assert(bitmap.bits() =~= true_positions(value@.take(idx + 1)));
            idx = idx + 1;
        }
        assert(value@.take(value@.len() as int) =~= value@);
        bitmap
    }

    proof fn room_law() {
    }

    proof fn equality_law(a: Self, b: Self) {
    }

    proof fn emptiness_law(a: Self) {
    }

    proof fn clone_law(a: Self, b: Self) {
    }
}

impl NullBitmap for HeapNullBitmap {
    open spec fn bits(&self) -> Set<int> {
        true_positions(self.repr())
    }

    /// The last bit is set.
    open spec fn tight(&self) -> bool {
        self.repr().len() == 0 || self.repr().last()
    }

    /// There are no bits, set or clear.
    open spec fn reports_empty(&self) -> bool {
        self.repr().len() == 0
    }

    open spec fn can_hold(idx: int) -> bool {
        idx < usize::MAX
    }

    open spec fn can_ask(idx: int) -> bool {
        true
    }

    fn empty() -> (r: Self) {
        let r = HeapNullBitmap { inner: fixed_new() };
        assert(r.bits() =~= Set::<int>::empty());
        r
    }

    fn is_empty(&self) -> (r: bool) {
        fixed_is_empty(&self.inner)
    }

    /// The bitmap grows so far that it has the position, and no farther.
    fn set_true(&mut self, idx: usize)
        ensures
            final(self).repr().len() == (if idx < old(self).repr().len() {
                old(self).repr().len()
            } else {
                (idx + 1) as nat
            }),
    {
        fixed_grow(&mut self.inner, idx + 1);
        fixed_insert(&mut self.inner, idx);
        assert(self.bits() =~= old(self).bits().insert(idx as int));
    }

    fn contains(&self, x: usize) -> (r: bool) {
        fixed_contains(&self.inner, x)
    }

    fn is_subset(&self, other: &Self) -> (r: bool) {
        fixed_is_subset(&self.inner, &other.inner)
    }

    fn from_bool_vec(value: Vec<bool>) -> (r: Self)
        ensures
            r.repr() == value@,
    {
        let mut bitmap = HeapNullBitmap::with_capacity(value.len());
        let mut idx: usize = 0;
        while idx < value.len()
            invariant
                idx <= value.len(),
                bitmap.repr().len() == value@.len(),
                forall|i: int|
                    0 <= i < value@.len() ==> (#[trigger] bitmap.repr()[i] <==> i < idx
                        && value@[i]),
            decreases value.len() - idx,
        {
            if value[idx] {
                let ghost before = bitmap.repr();
                bitmap.set_true(idx);
                assert forall|i: int| 0 <= i < value@.len() implies #[trigger] bitmap.repr()[i]
                    == (before[i] || i == idx) by {
                    assert(bitmap.bits().contains(i) <==> bitmap.repr()[i]);
                    assert(true_positions(before).contains(i) <==> before[i]);
                }
            }
            idx = idx + 1;
        }
        assert(bitmap.repr() =~= value@);
        bitmap
    }

    proof fn room_law() {
    }

    proof fn equality_law(a: Self, b: Self) {
        if a.tight() && b.tight() && a.bits() == b.bits() {
            lemma_tight_bits(a.repr(), b.repr());
        }
    }

    proof fn emptiness_law(a: Self) {
        if a.repr().len() > 0 && a.tight() {
            assert(a.bits().contains(a.repr().len() - 1));
        }
        if a.repr().len() == 0 {
            assert(a.bits() =~= Set::<int>::empty());
        }
    }

    proof fn clone_law(a: Self, b: Self) {
    }
}

proof fn lemma_tight_bits(a: Seq<bool>, b: Seq<bool>)
    requires
        a.len() == 0 || a.last(),
        b.len() == 0 || b.last(),
        true_positions(a) == true_positions(b),
    ensures
        a == b,
{
    if a.len() > 0 {
        assert(true_positions(b).contains(a.len() - 1)) by {
            assert(true_positions(a).contains(a.len() - 1));
        }
    }
    if b.len() > 0 {
        assert(true_positions(a).contains(b.len() - 1)) by {
            assert(true_positions(b).contains(b.len() - 1));
        }
    }
    assert(a.len() == b.len());
    assert forall|i: int| 0 <= i < a.len() implies a[i] == b[i] by {
        assert(true_positions(a).contains(i) <==> a[i]);
        assert(true_positions(b).contains(i) <==> b[i]);
    }
    assert(a =~= b);
}

} // verus!
