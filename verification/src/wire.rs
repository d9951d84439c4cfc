//! Big-endian numbers as byte sequences: the arithmetic under every field.

use vstd::prelude::*;

verus! {

/// The `width` low-order base-256 digits of `v`, most significant first.
pub open spec fn be_bytes(v: nat, width: nat) -> Seq<u8>
    decreases width,
{
    if width == 0 {
        Seq::empty()
    } else {
        be_bytes(v / 256, (width - 1) as nat).push((v % 256) as u8)
    }
}

/// The number whose base-256 digits, most significant first, are `bytes`.
pub open spec fn be_value(bytes: Seq<u8>) -> nat
    decreases bytes.len(),
{
    if bytes.len() == 0 {
        0
    } else {
        be_value(bytes.drop_last()) * 256 + bytes.last() as nat
    }
}

/// 256 to the power `width`.
pub open spec fn radix_pow(width: nat) -> nat
    decreases width,
{
    if width == 0 {
        1
    } else {
        256 * radix_pow((width - 1) as nat)
    }
}

/// `be_bytes` always yields exactly `width` bytes.
pub proof fn lemma_be_bytes_len(v: nat, width: nat)
    ensures
        be_bytes(v, width).len() == width,
    decreases width,
{
    if width > 0 {
        lemma_be_bytes_len(v / 256, (width - 1) as nat);
    }
}

/// Reading back what `be_bytes` wrote gives the number again, when it fits.
pub proof fn lemma_be_value_of_bytes(v: nat, width: nat)
    requires
        v < radix_pow(width),
    ensures
        be_value(be_bytes(v, width)) == v,
    decreases width,
{
    if width > 0 {
        let rest = be_bytes(v / 256, (width - 1) as nat);
        lemma_be_value_of_bytes(v / 256, (width - 1) as nat);
        assert(be_bytes(v, width).drop_last() =~= rest);
    }
}

/// The two bytes of a `u16`, most significant first.
pub fn u16_to_be(v: u16) -> (r: [u8; 2])
    ensures
        r@ == be_bytes(v as nat, 2),
{
    let r: [u8; 2] = [(v / 256) as u8, (v % 256) as u8];
    proof {
        reveal_with_fuel(be_bytes, 3);
        assert(r@ =~= be_bytes(v as nat, 2));
    }
    r
}

/// The four bytes of a `u32`, most significant first.
pub fn u32_to_be(v: u32) -> (r: [u8; 4])
    ensures
        r@ == be_bytes(v as nat, 4),
{
    let v1: u32 = v / 256;
    let v2: u32 = v1 / 256;
    let v3: u32 = v2 / 256;
    let r: [u8; 4] = [(v3 % 256) as u8, (v2 % 256) as u8, (v1 % 256) as u8, (v % 256) as u8];
    proof {
        reveal_with_fuel(be_bytes, 5);
        assert(r@ =~= be_bytes(v as nat, 4));
    }
    r
}

/// The eight bytes of a `u64`, most significant first.
pub fn u64_to_be(v: u64) -> (r: [u8; 8])
    ensures
        r@ == be_bytes(v as nat, 8),
{
    let v1: u64 = v / 256;
    let v2: u64 = v1 / 256;
    let v3: u64 = v2 / 256;
    let v4: u64 = v3 / 256;
    let v5: u64 = v4 / 256;
    let v6: u64 = v5 / 256;
    let v7: u64 = v6 / 256;
    let r: [u8; 8] = [
        (v7 % 256) as u8,
        (v6 % 256) as u8,
        (v5 % 256) as u8,
        (v4 % 256) as u8,
        (v3 % 256) as u8,
        (v2 % 256) as u8,
        (v1 % 256) as u8,
        (v % 256) as u8,
    ];
    proof {
        reveal_with_fuel(be_bytes, 9);
        assert(r@ =~= be_bytes(v as nat, 8));
    }
    r
}

/// Unfolds `be_value` once at the last byte.
pub proof fn lemma_be_value_push(front: Seq<u8>, last: u8)
    ensures
        be_value(front.push(last)) == be_value(front) * 256 + last as nat,
{
    assert(front.push(last).drop_last() =~= front);
}

/// The `u16` that two big-endian bytes stand for.
pub fn u16_from_be(b: &[u8; 2]) -> (r: u16)
    ensures
        r as nat == be_value(b@),
{
    let r: u16 = (b[0] as u16) * 256 + (b[1] as u16);
    proof {
        let s0 = Seq::<u8>::empty();
        lemma_be_value_push(s0, b[0]);
        lemma_be_value_push(s0.push(b[0]), b[1]);
        assert(b@ =~= s0.push(b[0]).push(b[1]));
    }
    r
}

/// The `u32` that four big-endian bytes stand for.
pub fn u32_from_be(b: &[u8; 4]) -> (r: u32)
    ensures
        r as nat == be_value(b@),
{
    let h: u32 = (b[0] as u32) * 256 + (b[1] as u32);
    let m: u32 = h * 256 + (b[2] as u32);
    let r: u32 = m * 256 + (b[3] as u32);
    proof {
        let s0 = Seq::<u8>::empty();
        let s1 = s0.push(b[0]);
        let s2 = s1.push(b[1]);
        let s3 = s2.push(b[2]);
        lemma_be_value_push(s0, b[0]);
        lemma_be_value_push(s1, b[1]);
        lemma_be_value_push(s2, b[2]);
        lemma_be_value_push(s3, b[3]);
        assert(b@ =~= s3.push(b[3]));
    }
    r
}

/// The `u64` that eight big-endian bytes stand for.
pub fn u64_from_be(b: &[u8; 8]) -> (r: u64)
    ensures
        r as nat == be_value(b@),
{
    let a1: u64 = (b[0] as u64) * 256 + (b[1] as u64);
    let a2: u64 = a1 * 256 + (b[2] as u64);
    let a3: u64 = a2 * 256 + (b[3] as u64);
    let a4: u64 = a3 * 256 + (b[4] as u64);
    let a5: u64 = a4 * 256 + (b[5] as u64);
    let a6: u64 = a5 * 256 + (b[6] as u64);
    let r: u64 = a6 * 256 + (b[7] as u64);
    proof {
        let s0 = Seq::<u8>::empty();
        let s1 = s0.push(b[0]);
        let s2 = s1.push(b[1]);
        let s3 = s2.push(b[2]);
        let s4 = s3.push(b[3]);
        let s5 = s4.push(b[4]);
        let s6 = s5.push(b[5]);
        let s7 = s6.push(b[6]);
        lemma_be_value_push(s0, b[0]);
        lemma_be_value_push(s1, b[1]);
        lemma_be_value_push(s2, b[2]);
        lemma_be_value_push(s3, b[3]);
        lemma_be_value_push(s4, b[4]);
        lemma_be_value_push(s5, b[5]);
        lemma_be_value_push(s6, b[6]);
        lemma_be_value_push(s7, b[7]);
        assert(b@ =~= s7.push(b[7]));
    }
    r
}

} // verus!
