//! Little-endian byte-level primitives shared by the wire formats: writing
//! and reading fixed-width integers, and the lemmas that make those two
//! directions inverse to each other.

use vstd::prelude::*;

verus! {

/// 256 to the power `n`: the number of values `n` bytes can hold.
pub open spec fn pow256(n: nat) -> int
    decreases n,
{
    if n == 0 {
        1
    } else {
        256 * pow256((n - 1) as nat)
    }
}

/// The `n` little-endian bytes of a non-negative value.
pub open spec fn spec_le_bytes(v: int, n: nat) -> Seq<u8>
    decreases n,
{
    if n == 0 {
        Seq::empty()
    } else {
        seq![(v % 256) as u8] + spec_le_bytes(v / 256, (n - 1) as nat)
    }
}

/// The value a little-endian byte sequence stands for.
pub open spec fn spec_int_of_le(b: Seq<u8>) -> int
    decreases b.len(),
{
    if b.len() == 0 {
        0
    } else {
        b[0] + 256 * spec_int_of_le(b.drop_first())
    }
}

pub proof fn lemma_pow256_pos(n: nat)
    ensures
        pow256(n) >= 1,
    decreases n,
{
    if n > 0 {
        lemma_pow256_pos((n - 1) as nat);
    }
}

pub proof fn lemma_le_bytes_len(v: int, n: nat)
    ensures
        spec_le_bytes(v, n).len() == n,
    decreases n,
{
    if n > 0 {
        lemma_le_bytes_len(v / 256, (n - 1) as nat);
    }
}

/// Reading back the little-endian bytes of `v` gives `v` again.
pub proof fn lemma_le_round_trip(v: int, n: nat)
    requires
        0 <= v < pow256(n),
    ensures
        spec_int_of_le(spec_le_bytes(v, n)) == v,
    decreases n,
{
    if n > 0 {
        let p = pow256((n - 1) as nat);
        lemma_pow256_pos((n - 1) as nat);
        assert(0 <= v / 256 && v / 256 < p) by (nonlinear_arith)
            requires
                0 <= v,
                v < 256 * p,
                p >= 1;
        lemma_le_round_trip(v / 256, (n - 1) as nat);
        let b = spec_le_bytes(v, n);
        assert(b.drop_first() =~= spec_le_bytes(v / 256, (n - 1) as nat));
        assert(v % 256 + 256 * (v / 256) == v) by (nonlinear_arith)
            requires
                0 <= v;
    }
}

/// Any byte sequence is the little-endian encoding of the value it stands
/// for, and that value fits in as many bytes as the sequence has.
pub proof fn lemma_le_bytes_of_int(b: Seq<u8>)
    ensures
        0 <= spec_int_of_le(b) < pow256(b.len()),
        spec_le_bytes(spec_int_of_le(b), b.len()) == b,
    decreases b.len(),
{
    if b.len() == 0 {
        assert(spec_le_bytes(0, 0) =~= b);
    } else {
        let r = b.drop_first();
        lemma_le_bytes_of_int(r);
        let vr = spec_int_of_le(r);
        let v = spec_int_of_le(b);
        let p = pow256(r.len());
        assert(v == b[0] + 256 * vr);
        assert(0 <= v < 256 * p) by (nonlinear_arith)
            requires
                v == b[0] + 256 * vr,
                0 <= b[0] < 256,
                0 <= vr < p;
        assert(v % 256 == b[0] && v / 256 == vr) by (nonlinear_arith)
            requires
                v == b[0] + 256 * vr,
                0 <= b[0] < 256,
                0 <= vr;
        assert(spec_le_bytes(v, b.len()) =~= b);
    }
}

/// Two encodings of the same width followed by arbitrary tails: equal
/// concatenations force equal values and equal tails.
pub proof fn lemma_le_bytes_cancel(v1: int, v2: int, n: nat, r1: Seq<u8>, r2: Seq<u8>)
    requires
        0 <= v1 < pow256(n),
        0 <= v2 < pow256(n),
        spec_le_bytes(v1, n) + r1 == spec_le_bytes(v2, n) + r2,
    ensures
        v1 == v2,
        r1 == r2,
{
    lemma_le_bytes_len(v1, n);
    lemma_le_bytes_len(v2, n);
    let s1 = spec_le_bytes(v1, n) + r1;
    let s2 = spec_le_bytes(v2, n) + r2;
    assert(s1.take(n as int) =~= spec_le_bytes(v1, n));
    assert(s2.take(n as int) =~= spec_le_bytes(v2, n));
    lemma_le_round_trip(v1, n);
    lemma_le_round_trip(v2, n);
    assert(r1 =~= s1.skip(n as int));
    assert(r2 =~= s2.skip(n as int));
}

/// Appends the two little-endian bytes of `v`.
pub fn push_le16(buf: &mut Vec<u8>, v: u16)
    ensures
        final(buf)@ == old(buf)@ + spec_le_bytes(v as int, 2),
{
    let b0: u8 = (v % 256) as u8;
    let b1: u8 = ((v / 256) % 256) as u8;
    buf.push(b0);
    buf.push(b1);
    proof {
        reveal_with_fuel(spec_le_bytes, 3);
        assert(spec_le_bytes(v as int, 2) =~= seq![b0, b1]);
        assert(buf@ =~= old(buf)@ + spec_le_bytes(v as int, 2));
    }
}

/// Appends the four little-endian bytes of `v`.
pub fn push_le32(buf: &mut Vec<u8>, v: u32)
    ensures
        final(buf)@ == old(buf)@ + spec_le_bytes(v as int, 4),
{
    let b0: u8 = (v % 256) as u8;
    let b1: u8 = ((v / 256) % 256) as u8;
    let b2: u8 = ((v / 65536) % 256) as u8;
    let b3: u8 = ((v / 16777216) % 256) as u8;
    buf.push(b0);
    buf.push(b1);
    buf.push(b2);
    buf.push(b3);
    proof {
        reveal_with_fuel(spec_le_bytes, 5);
        assert(spec_le_bytes(v as int, 4) =~= seq![b0, b1, b2, b3]);
        assert(buf@ =~= old(buf)@ + spec_le_bytes(v as int, 4));
    }
}

/// Appends the eight little-endian bytes of `v`.
pub fn push_le64(buf: &mut Vec<u8>, v: u64)
    ensures
        final(buf)@ == old(buf)@ + spec_le_bytes(v as int, 8),
{
    let b0: u8 = (v % 256) as u8;
    let b1: u8 = ((v / 256) % 256) as u8;
    let b2: u8 = ((v / 65536) % 256) as u8;
    let b3: u8 = ((v / 16777216) % 256) as u8;
    let b4: u8 = ((v / 0x100000000) % 256) as u8;
    let b5: u8 = ((v / 0x10000000000) % 256) as u8;
    let b6: u8 = ((v / 0x1000000000000) % 256) as u8;
    let b7: u8 = ((v / 0x100000000000000) % 256) as u8;
    buf.push(b0);
    buf.push(b1);
    buf.push(b2);
    buf.push(b3);
    buf.push(b4);
    buf.push(b5);
    buf.push(b6);
    buf.push(b7);
    proof {
        reveal_with_fuel(spec_le_bytes, 9);
        assert(spec_le_bytes(v as int, 8) =~= seq![b0, b1, b2, b3, b4, b5, b6, b7]);
        assert(buf@ =~= old(buf)@ + spec_le_bytes(v as int, 8));
    }
}

/// Reads the two-byte little-endian value at `pos`.
pub fn read_le16(data: &Vec<u8>, pos: usize) -> (r: u16)
    requires
        pos + 2 <= data@.len(),
    ensures
        r as int == spec_int_of_le(data@.subrange(pos as int, pos as int + 2)),
{
    let len: usize = data.len();
    let b0: u16 = data[pos] as u16;
    let b1: u16 = data[pos + 1] as u16;
    let r: u16 = b0 + b1 * 256;
    proof {
        let s = data@.subrange(pos as int, pos as int + 2);
        reveal_with_fuel(spec_int_of_le, 3);
        assert(s.drop_first() =~= seq![data@[pos as int + 1]]);
        assert(s.drop_first().drop_first() =~= Seq::<u8>::empty());
    }
    r
}

/// Reads the four-byte little-endian value at `pos`.
pub fn read_le32(data: &Vec<u8>, pos: usize) -> (r: u32)
    requires
        pos + 4 <= data@.len(),
    ensures
        r as int == spec_int_of_le(data@.subrange(pos as int, pos as int + 4)),
{
    let len: usize = data.len();
    let b0: u32 = data[pos] as u32;
    let b1: u32 = data[pos + 1] as u32;
    let b2: u32 = data[pos + 2] as u32;
    let b3: u32 = data[pos + 3] as u32;
    let r: u32 = b0 + b1 * 256 + b2 * 65536 + b3 * 16777216;
    proof {
        let s = data@.subrange(pos as int, pos as int + 4);
        reveal_with_fuel(spec_int_of_le, 5);
        let s1 = s.drop_first();
        let s2 = s1.drop_first();
        let s3 = s2.drop_first();
        assert(s1 =~= seq![data@[pos as int + 1], data@[pos as int + 2], data@[pos as int + 3]]);
        assert(s2 =~= seq![data@[pos as int + 2], data@[pos as int + 3]]);
        assert(s3 =~= seq![data@[pos as int + 3]]);
        assert(s3.drop_first() =~= Seq::<u8>::empty());
    }
    r
}

/// Reads the eight-byte little-endian value at `pos`.
pub fn read_le64(data: &Vec<u8>, pos: usize) -> (r: u64)
    requires
        pos + 8 <= data@.len(),
    ensures
        r as int == spec_int_of_le(data@.subrange(pos as int, pos as int + 8)),
{
    let len: usize = data.len();
    let b0: u64 = data[pos] as u64;
    let b1: u64 = data[pos + 1] as u64;
    let b2: u64 = data[pos + 2] as u64;
    let b3: u64 = data[pos + 3] as u64;
    let b4: u64 = data[pos + 4] as u64;
    let b5: u64 = data[pos + 5] as u64;
    let b6: u64 = data[pos + 6] as u64;
    let b7: u64 = data[pos + 7] as u64;
    let r: u64 = b0 + b1 * 256 + b2 * 65536 + b3 * 16777216 + b4 * 0x100000000 + b5 * 0x10000000000
        + b6 * 0x1000000000000 + b7 * 0x100000000000000;
    proof {
        let s = data@.subrange(pos as int, pos as int + 8);
        reveal_with_fuel(spec_int_of_le, 9);
        let s1 = s.drop_first();
        let s2 = s1.drop_first();
        let s3 = s2.drop_first();
        let s4 = s3.drop_first();
        let s5 = s4.drop_first();
        let s6 = s5.drop_first();
        let s7 = s6.drop_first();
        assert(s1 =~= s.subrange(1, 8));
        assert(s2 =~= s.subrange(2, 8));
        assert(s3 =~= s.subrange(3, 8));
        assert(s4 =~= s.subrange(4, 8));
        assert(s5 =~= s.subrange(5, 8));
        assert(s6 =~= s.subrange(6, 8));
        assert(s7 =~= s.subrange(7, 8));
        assert(s7.drop_first() =~= Seq::<u8>::empty());
    }
    r
}

/// The unsigned 32-bit two's-complement pattern of a signed value.
pub open spec fn spec_i32_bits(v: int) -> int {
    if v >= 0 {
        v
    } else {
        v + 0x100000000
    }
}

/// The signed value a 32-bit pattern stands for.
pub open spec fn spec_bits_i32(u: int) -> int {
    if u < 0x80000000 {
        u
    } else {
        u - 0x100000000
    }
}

pub proof fn lemma_i32_bits_round_trip(v: int)
    requires
        -0x80000000 <= v < 0x80000000,
    ensures
        0 <= spec_i32_bits(v) < 0x100000000,
        spec_bits_i32(spec_i32_bits(v)) == v,
{
}

/// The two's-complement pattern of `v`, as an executable conversion.
pub fn i32_bits(v: i32) -> (r: u32)
    ensures
        r as int == spec_i32_bits(v as int),
{
    if v >= 0 {
        v as u32
    } else {
        (v as i64 + 0x100000000i64) as u32
    }
}

/// The signed value of a 32-bit pattern, as an executable conversion.
pub fn bits_i32(u: u32) -> (r: i32)
    ensures
        r as int == spec_bits_i32(u as int),
{
    if u < 0x80000000 {
        u as i32
    } else {
        (u as i64 - 0x100000000i64) as i32
    }
}

} // verus!
