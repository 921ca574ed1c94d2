//! Little-endian integers in byte sequences, and a cursor that reads them back.
use vstd::prelude::*;

verus! {

/// 256 to the power `n`: how many values fit into `n` bytes.
pub open spec fn byte_range(n: nat) -> nat
    decreases n,
{
    if n == 0 {
        1
    } else {
        256 * byte_range((n - 1) as nat)
    }
}

/// The `n` lowest bytes of `v`, lowest byte first.
pub open spec fn le_bytes(v: nat, n: nat) -> Seq<u8>
    decreases n,
{
    if n == 0 {
        Seq::empty()
    } else {
        seq![(v % 256) as u8] + le_bytes(v / 256, (n - 1) as nat)
    }
}

/// The number whose bytes, lowest first, are `s`.
pub open spec fn le_value(s: Seq<u8>) -> nat
    decreases s.len(),
{
    if s.len() == 0 {
        0
    } else {
        s[0] as nat + 256 * le_value(s.drop_first())
    }
}

pub proof fn lemma_le_len(v: nat, n: nat)
    ensures
        le_bytes(v, n).len() == n,
    decreases n,
{
    if n > 0 {
        lemma_le_len(v / 256, (n - 1) as nat);
    }
}

/// A number that fits into `n` bytes is read back from its `n` bytes.
pub proof fn lemma_le_value_of_bytes(v: nat, n: nat)
    requires
        v < byte_range(n),
    ensures
        le_bytes(v, n).len() == n,
        le_value(le_bytes(v, n)) == v,
    decreases n,
{
    if n > 0 {
        let rest = le_bytes(v / 256, (n - 1) as nat);
        assert(v / 256 < byte_range((n - 1) as nat));
        lemma_le_value_of_bytes(v / 256, (n - 1) as nat);
        assert(le_bytes(v, n).drop_first() =~= rest);
    }
}

/// A byte sequence is the byte form of the number it denotes.
pub proof fn lemma_le_bytes_of_value(s: Seq<u8>)
    ensures
        le_value(s) < byte_range(s.len()),
        le_bytes(le_value(s), s.len()) == s,
    decreases s.len(),
{
    if s.len() > 0 {
        let rest = s.drop_first();
        lemma_le_bytes_of_value(rest);
        assert(le_value(s) / 256 == le_value(rest));
        assert(le_value(s) % 256 == s[0]);
        assert(seq![s[0]] + rest =~= s);
    }
}

pub proof fn lemma_byte_ranges()
    ensures
        byte_range(1) == 0x100,
        byte_range(2) == 0x1_0000,
        byte_range(4) == 0x1_0000_0000,
        byte_range(8) == 0x1_0000_0000_0000_0000,
        byte_range(12) == 0x1_0000_0000_0000_0000_0000_0000,
{
    reveal_with_fuel(byte_range, 13);
}

/// Appends the `n` lowest bytes of `v` to `buf`, lowest byte first.
pub fn put_le(buf: &mut Vec<u8>, v: u128, n: usize)
    ensures
        final(buf)@ == old(buf)@ + le_bytes(v as nat, n as nat),
{
    let ghost start = buf@;
    let mut rest: u128 = v;
    let mut left: usize = n;
    assert(buf@ + le_bytes(rest as nat, left as nat) =~= start + le_bytes(v as nat, n as nat));
    while left > 0
        invariant
            buf@ + le_bytes(rest as nat, left as nat) == start + le_bytes(v as nat, n as nat),
        decreases left,
    {
        let ghost before = buf@;
        let ghost tail = le_bytes(rest as nat / 256, (left - 1) as nat);
        buf.push((rest % 256) as u8);
        assert(buf@ + tail =~= before + (seq![(rest as nat % 256) as u8] + tail));
        rest = rest / 256;
        left = left - 1;
    }
    assert(buf@ + le_bytes(rest as nat, 0) =~= buf@);
}

/// A position in an owned byte buffer.
pub struct ByteCursor {
    data: Vec<u8>,
    pos: usize,
}

impl ByteCursor {
    pub closed spec fn wf(&self) -> bool {
        self.pos <= self.data.len()
    }

    /// The bytes that are still to be read.
    pub closed spec fn remaining(&self) -> Seq<u8> {
        self.data@.skip(self.pos as int)
    }

    pub fn new(data: Vec<u8>) -> (r: Self)
        ensures
            r.wf(),
            r.remaining() == data@,
    {
        let r = ByteCursor { data, pos: 0 };
        assert(r.remaining() =~= data@);
        r
    }

    pub fn remaining_len(&self) -> (n: usize)
        requires
            self.wf(),
        ensures
            n == self.remaining().len(),
    {
        self.data.len() - self.pos
    }

    /// Reads one byte.
    pub fn read_u8(&mut self) -> (b: u8)
        requires
            old(self).wf(),
            old(self).remaining().len() >= 1,
        ensures
            final(self).wf(),
            b == old(self).remaining()[0],
            final(self).remaining() == old(self).remaining().skip(1),
    {
        let b: u8 = self.data[self.pos];
        self.pos = self.pos + 1;
        assert(self.remaining() =~= old(self).remaining().skip(1));
        b
    }

    /// Reads `n` bytes.
    pub fn read_bytes(&mut self, n: usize) -> (out: Vec<u8>)
        requires
            old(self).wf(),
            old(self).remaining().len() >= n,
        ensures
            final(self).wf(),
            out@ == old(self).remaining().take(n as int),
            final(self).remaining() == old(self).remaining().skip(n as int),
    {
        let mut out: Vec<u8> = Vec::new();
        let start: usize = self.pos;
        while out.len() < n
            invariant
                out.len() <= n,
                start + n <= self.data.len(),
                out@ =~= self.data@.subrange(start as int, start + out.len()),
            decreases n - out.len(),
        {
            let b: u8 = self.data[start + out.len()];
            out.push(b);
        }
        self.pos = start + n;
        assert(out@ =~= old(self).remaining().take(n as int));
        assert(self.remaining() =~= old(self).remaining().skip(n as int));
        out
    }

    /// Reads an `n`-byte little-endian number.
    pub fn read_le(&mut self, n: usize) -> (v: u128)
        requires
            old(self).wf(),
            n <= 16,
            old(self).remaining().len() >= n,
        ensures
            final(self).wf(),
            v == le_value(old(self).remaining().take(n as int)),
            v < byte_range(n as nat),
            final(self).remaining() == old(self).remaining().skip(n as int),
    {
        let bytes = self.read_bytes(n);
        proof {
            lemma_le_bytes_of_value(bytes@);
        }
        le_from(bytes.as_slice())
    }
}

/// The number whose bytes, lowest first, are `bytes`.
pub fn le_from(bytes: &[u8]) -> (v: u128)
    requires
        bytes@.len() <= 16,
    ensures
        v == le_value(bytes@),
        v < byte_range(bytes@.len()),
{
    let ghost all = bytes@;
    let n: usize = bytes.len();
    let mut v: u128 = 0;
    let mut i: usize = n;
    proof {
        lemma_le_bytes_of_value(all);
        assert(all.skip(n as int) =~= Seq::<u8>::empty());
    }
    while i > 0
        invariant
            i <= n <= 16,
            bytes@ == all,
            all.len() == n,
            v == le_value(all.skip(i as int)),
            v < byte_range((n - i) as nat),
        decreases i,
    {
        i = i - 1;
        proof {
            assert(all.skip(i as int).drop_first() =~= all.skip(i + 1));
            assert(all.skip(i as int)[0] == all[i as int]);
            reveal_with_fuel(byte_range, 17);
            lemma_byte_range_increases((n - i) as nat, 16);
        }
        v = bytes[i] as u128 + 256 * v;
    }
    assert(all.skip(0) =~= all);
    v
}

proof fn lemma_byte_range_increases(m: nat, n: nat)
    requires
        m <= n,
    ensures
        byte_range(m) <= byte_range(n),
    decreases n,
{
    if m < n {
        lemma_byte_range_increases(m, (n - 1) as nat);
    }
}

} // verus!
