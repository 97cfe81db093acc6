//! Fixed-width wire encoding of the handshake and frame fields.
//!
//! Every numeric field travels as 8 big-endian bytes.  The decode function is
//! an explicit weighted sum, which makes its injectivity per byte position a
//! matter of linear arithmetic.
use vstd::prelude::*;
use crate::crypto::MOD32;

verus! {

/// 256^7, the weight of the most significant byte.
pub const P7: u64 = 72057594037927936;
/// 256^6.
pub const P6: u64 = 281474976710656;
/// 256^5.
pub const P5: u64 = 1099511627776;
/// 256^4, equal to `MOD32`.
pub const P4: u64 = 4294967296;
/// 256^3.
pub const P3: u64 = 16777216;
/// 256^2.
pub const P2: u64 = 65536;
/// 256^1.
pub const P1: u64 = 256;

/// Value of the first 8 bytes of `s` read as one big-endian integer.
pub open spec fn de64s(s: Seq<u8>) -> int {
    s[0] * P7 + s[1] * P6 + s[2] * P5 + s[3] * P4 + s[4] * P3 + s[5] * P2 + s[6] * P1 + s[7]
}

/// Big-endian byte at weight `256^e` of `x`.
pub open spec fn byte_at(x: u64, e: int) -> u8 {
    (((x as int) / pow256(e)) % 256) as u8
}

/// 256 raised to a small non-negative power.
pub open spec fn pow256(e: int) -> int
    decreases e,
{
    if e <= 0 {
        1
    } else {
        256 * pow256(e - 1)
    }
}

/// The 8-byte big-endian encoding of `x`.
pub open spec fn be64s(x: u64) -> Seq<u8> {
    Seq::new(8, |i: int| byte_at(x, 7 - i))
}

/// Decoding inverts encoding.
pub proof fn lemma_de64_be64(x: u64)
    ensures
        de64s(be64s(x)) == x,
{
    let xi = x as int;
    reveal_with_fuel(pow256, 9);
    vstd::arithmetic::div_mod::lemma_fundamental_div_mod(xi, 256);
    vstd::arithmetic::div_mod::lemma_div_denominator(xi, 256, 256);
    vstd::arithmetic::div_mod::lemma_div_denominator(xi, 65536, 256);
    vstd::arithmetic::div_mod::lemma_div_denominator(xi, 16777216, 256);
    vstd::arithmetic::div_mod::lemma_div_denominator(xi, 4294967296, 256);
    vstd::arithmetic::div_mod::lemma_div_denominator(xi, 1099511627776, 256);
    vstd::arithmetic::div_mod::lemma_div_denominator(xi, 281474976710656, 256);
    let d1 = xi / 256;
    let d2 = xi / 65536;
    let d3 = xi / 16777216;
    let d4 = xi / 4294967296;
    let d5 = xi / 1099511627776;
    let d6 = xi / 281474976710656;
    let d7 = xi / 72057594037927936;
    vstd::arithmetic::div_mod::lemma_fundamental_div_mod(d1, 256);
    vstd::arithmetic::div_mod::lemma_fundamental_div_mod(d2, 256);
    vstd::arithmetic::div_mod::lemma_fundamental_div_mod(d3, 256);
    vstd::arithmetic::div_mod::lemma_fundamental_div_mod(d4, 256);
    vstd::arithmetic::div_mod::lemma_fundamental_div_mod(d5, 256);
    vstd::arithmetic::div_mod::lemma_fundamental_div_mod(d6, 256);
    vstd::arithmetic::div_mod::lemma_div_is_ordered(xi, 18446744073709551615, 72057594037927936);
    assert(d7 < 256);
    vstd::arithmetic::div_mod::lemma_small_mod(d7 as nat, 256);
}

/// Two 8-byte fields that differ in exactly one byte decode to different values.
pub proof fn lemma_de64_one_diff(s1: Seq<u8>, s2: Seq<u8>, j: int)
    requires
        s1.len() == 8,
        s2.len() == 8,
        0 <= j < 8,
        s1[j] != s2[j],
        forall|i: int| 0 <= i < 8 && i != j ==> s1[i] == s2[i],
    ensures
        de64s(s1) != de64s(s2),
{
}

/// Weight of byte position `j` of an 8-byte big-endian field.
pub open spec fn wexp(j: int) -> int {
    if j == 0 {
        P7 as int
    } else if j == 1 {
        P6 as int
    } else if j == 2 {
        P5 as int
    } else if j == 3 {
        P4 as int
    } else if j == 4 {
        P3 as int
    } else if j == 5 {
        P2 as int
    } else if j == 6 {
        P1 as int
    } else {
        1
    }
}

/// Two 8-byte fields that differ in exactly one byte decode to values that
/// differ by exactly the byte difference times that position's weight.
pub proof fn lemma_de64_diff_weight(s1: Seq<u8>, s2: Seq<u8>, j: int)
    requires
        s1.len() == 8,
        s2.len() == 8,
        0 <= j < 8,
        forall|i: int| 0 <= i < 8 && i != j ==> s1[i] == s2[i],
    ensures
        de64s(s1) - de64s(s2) == (s1[j] - s2[j]) * wexp(j),
{
    let d = s1[j] - s2[j];
    if j == 0 {
        assert(de64s(s1) - de64s(s2) == s1[0] * P7 - s2[0] * P7);
        assert(s1[0] * P7 - s2[0] * P7 == d * (P7 as int)) by (nonlinear_arith)
            requires d == s1[0] - s2[0];
    } else if j == 1 {
        assert(de64s(s1) - de64s(s2) == s1[1] * P6 - s2[1] * P6);
        assert(s1[1] * P6 - s2[1] * P6 == d * (P6 as int)) by (nonlinear_arith)
            requires d == s1[1] - s2[1];
    } else if j == 2 {
        assert(de64s(s1) - de64s(s2) == s1[2] * P5 - s2[2] * P5);
        assert(s1[2] * P5 - s2[2] * P5 == d * (P5 as int)) by (nonlinear_arith)
            requires d == s1[2] - s2[2];
    } else if j == 3 {
        assert(de64s(s1) - de64s(s2) == s1[3] * P4 - s2[3] * P4);
        assert(s1[3] * P4 - s2[3] * P4 == d * (P4 as int)) by (nonlinear_arith)
            requires d == s1[3] - s2[3];
    } else if j == 4 {
        assert(de64s(s1) - de64s(s2) == s1[4] * P3 - s2[4] * P3);
        assert(s1[4] * P3 - s2[4] * P3 == d * (P3 as int)) by (nonlinear_arith)
            requires d == s1[4] - s2[4];
    } else if j == 5 {
        assert(de64s(s1) - de64s(s2) == s1[5] * P2 - s2[5] * P2);
        assert(s1[5] * P2 - s2[5] * P2 == d * (P2 as int)) by (nonlinear_arith)
            requires d == s1[5] - s2[5];
    } else if j == 6 {
        assert(de64s(s1) - de64s(s2) == s1[6] * P1 - s2[6] * P1);
        assert(s1[6] * P1 - s2[6] * P1 == d * (P1 as int)) by (nonlinear_arith)
            requires d == s1[6] - s2[6];
    } else {
        assert(de64s(s1) - de64s(s2) == s1[7] - s2[7]);
    }
}

/// A field whose four leading bytes are zero decodes below `MOD32`; a nonzero
/// leading byte forces the value to `MOD32` or above.
pub proof fn lemma_de64_range(s: Seq<u8>)
    requires
        s.len() == 8,
    ensures
        (s[0] == 0 && s[1] == 0 && s[2] == 0 && s[3] == 0) <==> de64s(s) < MOD32,
        de64s(s) >= 0,
{
}

/// Encodings of values below `MOD32` have four leading zero bytes.
pub proof fn lemma_be64_small(x: u64)
    requires
        x < MOD32,
    ensures
        be64s(x)[0] == 0,
        be64s(x)[1] == 0,
        be64s(x)[2] == 0,
        be64s(x)[3] == 0,
{
    reveal_with_fuel(pow256, 9);
    vstd::arithmetic::div_mod::lemma_basic_div(x as int, 72057594037927936);
    vstd::arithmetic::div_mod::lemma_basic_div(x as int, 281474976710656);
    vstd::arithmetic::div_mod::lemma_basic_div(x as int, 1099511627776);
    vstd::arithmetic::div_mod::lemma_basic_div(x as int, 4294967296);
}

/// Append the 8-byte big-endian encoding of `x` to `out`.
pub fn be64_append(out: &mut Vec<u8>, x: u64)
    ensures
        final(out)@ == old(out)@ + be64s(x),
{
    proof {
        reveal_with_fuel(pow256, 9);
        vstd::arithmetic::power2::lemma2_to64();
        vstd::arithmetic::power2::lemma2_to64_rest();
        vstd::bits::lemma_u64_shr_is_div(x, 56);
        vstd::bits::lemma_u64_shr_is_div(x, 48);
        vstd::bits::lemma_u64_shr_is_div(x, 40);
        vstd::bits::lemma_u64_shr_is_div(x, 32);
        vstd::bits::lemma_u64_shr_is_div(x, 24);
        vstd::bits::lemma_u64_shr_is_div(x, 16);
        vstd::bits::lemma_u64_shr_is_div(x, 8);
    }
    out.push((x >> 56) as u8);
    out.push((x >> 48) as u8);
    out.push((x >> 40) as u8);
    out.push((x >> 32) as u8);
    out.push((x >> 24) as u8);
    out.push((x >> 16) as u8);
    out.push((x >> 8) as u8);
    out.push(x as u8);
    proof {
        let xi = x as int;
        assert(xi / 72057594037927936 < 256);
        vstd::arithmetic::div_mod::lemma_small_mod((xi / 72057594037927936) as nat, 256);
        assert(be64s(x)[0] == byte_at(x, 7) && be64s(x)[1] == byte_at(x, 6)
            && be64s(x)[2] == byte_at(x, 5) && be64s(x)[3] == byte_at(x, 4)
            && be64s(x)[4] == byte_at(x, 3) && be64s(x)[5] == byte_at(x, 2)
            && be64s(x)[6] == byte_at(x, 1) && be64s(x)[7] == byte_at(x, 0));
        assert(pow256(0) == 1 && xi / 1 == xi);
        assert(((x >> 56) as u8) as u64 == (x >> 56) % 256) by (bit_vector);
        assert(((x >> 48) as u8) as u64 == (x >> 48) % 256) by (bit_vector);
        assert(((x >> 40) as u8) as u64 == (x >> 40) % 256) by (bit_vector);
        assert(((x >> 32) as u8) as u64 == (x >> 32) % 256) by (bit_vector);
        assert(((x >> 24) as u8) as u64 == (x >> 24) % 256) by (bit_vector);
        assert(((x >> 16) as u8) as u64 == (x >> 16) % 256) by (bit_vector);
        assert(((x >> 8) as u8) as u64 == (x >> 8) % 256) by (bit_vector);
        assert((x as u8) as u64 == x % 256) by (bit_vector);
        assert(((x >> 56) as u8) == byte_at(x, 7));
        assert(((x >> 48) as u8) == byte_at(x, 6));
        assert(((x >> 40) as u8) == byte_at(x, 5));
        assert(((x >> 32) as u8) == byte_at(x, 4));
        assert(((x >> 24) as u8) == byte_at(x, 3));
        assert(((x >> 16) as u8) == byte_at(x, 2));
        assert(((x >> 8) as u8) == byte_at(x, 1));
        assert((x as u8) == byte_at(x, 0));
        assert(out@ == old(out)@ + be64s(x)) by { assert(out@ =~= old(out)@ + be64s(x)); }
    }
}

/// Read the 8-byte big-endian field of `v` that starts at `off`.
pub fn de64_at(v: &Vec<u8>, off: usize) -> (r: u64)
    requires
        off + 8 <= v.len(),
    ensures
        r == de64s(v@.subrange(off as int, off as int + 8)),
{
    let r: u64 = (v[off] as u64) * P7 + (v[off + 1] as u64) * P6 + (v[off + 2] as u64) * P5
        + (v[off + 3] as u64) * P4 + (v[off + 4] as u64) * P3 + (v[off + 5] as u64) * P2
        + (v[off + 6] as u64) * P1 + (v[off + 7] as u64);
    proof {
        let s = v@.subrange(off as int, off as int + 8);
        assert(s[0] == v@[off as int] && s[1] == v@[off as int + 1] && s[2] == v@[off as int + 2]
            && s[3] == v@[off as int + 3] && s[4] == v@[off as int + 4]
            && s[5] == v@[off as int + 5] && s[6] == v@[off as int + 6]
            && s[7] == v@[off as int + 7]);
    }
    r
}

/// The 32-byte expansion of a transcript-hash value.
pub open spec fn auth32(h: u64) -> Seq<u8> {
    Seq::new(32, |i: int| ((h + i * 37) % 256) as u8)
}

/// Expand a transcript-hash value into the 32-byte authentication value.
pub fn auth_hash_bytes(h: u64) -> (r: Vec<u8>)
    requires
        h < MOD32,
    ensures
        r@ == auth32(h),
        r@.len() == 32,
{
    let mut r: Vec<u8> = Vec::new();
    let mut i: usize = 0;
    while i < 32
        invariant
            i <= 32,
            h < MOD32,
            r@.len() == i,
            forall|t: int| 0 <= t < i ==> r@[t] == auth32(h)[t],
        decreases 32 - i,
    {
        r.push(((h + (i as u64) * 37) % 256) as u8);
        i = i + 1;
    }
    proof {
        assert(r@ =~= auth32(h));
    }
    r
}

} // verus!
