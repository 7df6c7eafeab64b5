//! Big-endian integer encoding and byte-vector helpers shared by the frame codecs.
use vstd::prelude::*;

verus! {

/// The two big-endian bytes of a 16-bit value.
pub open spec fn be16(x: u16) -> Seq<u8> {
    seq![(x / 256) as u8, (x % 256) as u8]
}

/// The four big-endian bytes of a 32-bit value.
pub open spec fn be32(x: u32) -> Seq<u8> {
    seq![
        (x / 0x100_0000) as u8,
        ((x / 0x1_0000) % 256) as u8,
        ((x / 256) % 256) as u8,
        (x % 256) as u8,
    ]
}

/// The 16-bit value whose big-endian bytes are `hi`, `lo`.
pub open spec fn be16_value(hi: u8, lo: u8) -> u16 {
    (hi * 256 + lo) as u16
}

/// The 32-bit value whose big-endian bytes are `b0 .. b3`.
pub open spec fn be32_value(b0: u8, b1: u8, b2: u8, b3: u8) -> u32 {
    (b0 * 0x100_0000 + b1 * 0x1_0000 + b2 * 256 + b3) as u32
}

pub proof fn lemma_be16_roundtrip(x: u16)
    ensures
        be16(x).len() == 2,
        be16_value(be16(x)[0], be16(x)[1]) == x,
{
}

pub proof fn lemma_be16_value_roundtrip(hi: u8, lo: u8)
    ensures
        be16(be16_value(hi, lo)) == seq![hi, lo],
{
    assert(be16(be16_value(hi, lo)) =~= seq![hi, lo]);
}

pub proof fn lemma_be32_roundtrip(x: u32)
    ensures
        be32(x).len() == 4,
        be32_value(be32(x)[0], be32(x)[1], be32(x)[2], be32(x)[3]) == x,
{
}

/// Reads the 16-bit big-endian value at `data[at]`, `data[at + 1]`.
pub fn read_be16(data: &[u8], at: usize) -> (r: u16)
    requires
        at + 1 < data@.len(),
    ensures
        r == be16_value(data@[at as int], data@[at + 1]),
{
    let hi = data[at] as u16;
    let lo = data[at + 1] as u16;
    hi * 256 + lo
}

/// Reads the 32-bit big-endian value starting at `data[at]`.
pub fn read_be32(data: &[u8], at: usize) -> (r: u32)
    requires
        at + 3 < data@.len(),
    ensures
        r == be32_value(data@[at as int], data@[at + 1], data@[at + 2], data@[at + 3]),
{
    let b0 = data[at] as u32;
    let b1 = data[at + 1] as u32;
    let b2 = data[at + 2] as u32;
    let b3 = data[at + 3] as u32;
    b0 * 0x100_0000 + b1 * 0x1_0000 + b2 * 256 + b3
}

/// Appends the big-endian bytes of `x`.
pub fn push_be16(v: &mut Vec<u8>, x: u16)
    ensures
        final(v)@ == old(v)@ + be16(x),
{
    v.push((x / 256) as u8);
    v.push((x % 256) as u8);
    assert(v@ =~= old(v)@ + be16(x));
}

/// Appends the big-endian bytes of `x`.
pub fn push_be32(v: &mut Vec<u8>, x: u32)
    ensures
        final(v)@ == old(v)@ + be32(x),
{
    v.push((x / 0x100_0000) as u8);
    v.push(((x / 0x1_0000) % 256) as u8);
    v.push(((x / 256) % 256) as u8);
    v.push((x % 256) as u8);
    assert(v@ =~= old(v)@ + be32(x));
}

/// Appends every byte of `s`, in order.
pub fn push_all(v: &mut Vec<u8>, s: &[u8])
    ensures
        final(v)@ == old(v)@ + s@,
{
    let ghost start = v@;
    let mut i: usize = 0;
    while i < s.len()
        invariant
            i <= s@.len(),
            v@ == start + s@.subrange(0, i as int),
        decreases s@.len() - i,
    {
        v.push(s[i]);
        i = i + 1;
        assert(v@ =~= start + s@.subrange(0, i as int));
    }
    assert(s@.subrange(0, s@.len() as int) =~= s@);
}

/// A fresh vector holding `s[from..to]`.
pub fn copy_range(s: &[u8], from: usize, to: usize) -> (r: Vec<u8>)
    requires
        from <= to <= s@.len(),
    ensures
        r@ == s@.subrange(from as int, to as int),
{
    let mut r: Vec<u8> = Vec::new();
    let mut i: usize = from;
    while i < to
        invariant
            from <= i <= to <= s@.len(),
            r@ == s@.subrange(from as int, i as int),
        decreases to - i,
    {
        r.push(s[i]);
        i = i + 1;
        assert(r@ =~= s@.subrange(from as int, i as int));
    }
    r
}

/// The number whose big-endian bytes are `s`.
pub open spec fn be_value(s: Seq<u8>) -> nat
    decreases s.len(),
{
    if s.len() == 0 {
        0
    } else {
        be_value(s.drop_last()) * 256 + s.last() as nat
    }
}

/// `256` to the power `n`.
pub open spec fn pow256(n: nat) -> nat
    decreases n,
{
    if n == 0 {
        1
    } else {
        256 * pow256((n - 1) as nat)
    }
}

/// `n` big-endian bytes hold a number below `256^n`.
pub proof fn lemma_be_value_bound(s: Seq<u8>)
    ensures
        be_value(s) < pow256(s.len()),
    decreases s.len(),
{
    if s.len() > 0 {
        let v = be_value(s.drop_last());
        let p = pow256((s.len() - 1) as nat);
        lemma_be_value_bound(s.drop_last());
        assert(v * 256 + s.last() < 256 * p) by (nonlinear_arith)
            requires
                v < p,
                s.last() < 256,
        ;
    }
}

proof fn lemma_pow256_monotone(i: nat, j: nat)
    requires
        i <= j,
    ensures
        pow256(i) <= pow256(j),
    decreases j - i,
{
    if i < j {
        lemma_pow256_monotone(i, (j - 1) as nat);
    }
}

proof fn lemma_pow256_values()
    ensures
        pow256(4) == 0x1_0000_0000,
        pow256(15) == 0x1_00_0000_0000_0000_0000_0000_0000_0000,
{
    reveal_with_fuel(pow256, 16);
}

/// The number whose big-endian bytes are `data`, at most sixteen of them.
pub fn read_be_number(data: &[u8]) -> (r: u128)
    requires
        data@.len() <= 16,
    ensures
        r == be_value(data@),
{
    let mut acc: u128 = 0;
    let mut i: usize = 0;
    while i < data.len()
        invariant
            i <= data@.len() <= 16,
            acc == be_value(data@.take(i as int)),
        decreases data@.len() - i,
    {
        proof {
            lemma_be_value_bound(data@.take(i as int));
            lemma_pow256_monotone(i as nat, 15);
            lemma_pow256_values();
        }
        assert(data@.take(i + 1).drop_last() =~= data@.take(i as int));
        acc = acc * 256 + data[i] as u128;
        i = i + 1;
    }
    assert(data@.take(i as int) =~= data@);
    acc
}

/// Four big-endian bytes hold a number that fits in 32 bits.
pub proof fn lemma_be_value_four(s: Seq<u8>)
    requires
        s.len() == 4,
    ensures
        be_value(s) < 0x1_0000_0000,
{
    lemma_be_value_bound(s);
    lemma_pow256_values();
}

} // verus!
