//! Mathematical model of the software vault's primitives.
//!
//! Every primitive is a total spec function over plain values, so that the
//! handshake engine's contracts and the protocol laws can be stated exactly.
//! The group is additive over scalars reduced modulo `MOD32`; the transcript
//! hash and the authenticator are position-weighted sums reduced modulo
//! `MOD32`.  The coefficients are chosen so that changing a single byte of an
//! authenticated message provably changes the authenticator.
use vstd::prelude::*;

verus! {

/// Modulus for all derived scalar values: 2^32.
pub const MOD32: u64 = 4294967296;

/// Exclusive upper bound on every private scalar the vault generates.
pub const KEY_BOUND: u64 = 268435456;

/// Group offset: a public key is `scalar + GEN`.
pub const GEN: u64 = 7;

/// Initial transcript-hash value of a handshake.
pub const H_INIT: u64 = 1481459064;

/// Initial chaining value of the key schedule.
pub const CK_INIT: u64 = 1481459043;

/// Largest plaintext a single frame may carry.
pub const MAX_PT: usize = 65520;

/// Reduce a non-negative integer modulo 2^32.
pub open spec fn m32(x: int) -> u64 {
    (x % (MOD32 as int)) as u64
}

/// Position-weighted byte sum: byte at index `i` has weight `i + 1`.
pub open spec fn wsum(s: Seq<u8>) -> int
    decreases s.len(),
{
    if s.len() == 0 {
        0
    } else {
        wsum(s.drop_last()) + s.last() * s.len()
    }
}

/// The public key of a private scalar.
pub open spec fn pubkey(x: u64) -> u64 {
    (x + GEN) as u64
}

/// Shared secret of a private scalar and a peer's public value.
pub open spec fn dhv(x: u64, p: u64) -> u64 {
    m32(x + p)
}

/// Next chaining value of the key schedule.
pub open spec fn kdf_ck(ck: u64, s: u64) -> u64 {
    m32(ck * 33 + s * 3 + 1)
}

/// Message key derived at a key-schedule step.
pub open spec fn kdf_k(ck: u64, s: u64) -> u64 {
    m32(ck * 65 + s + 2)
}

/// First directional session key derived from the final chaining value.
pub open spec fn key_a(ck: u64) -> u64 {
    m32(ck * 3 + 1)
}

/// Second directional session key derived from the final chaining value.
pub open spec fn key_b(ck: u64) -> u64 {
    m32(ck * 3 + 2)
}

/// Transcript-hash update: absorb `d` into `h`.
pub open spec fn mixh(h: u64, d: Seq<u8>) -> u64 {
    m32(h * 31 + wsum(d) + d.len())
}

/// Keystream byte `i` of key `k` under nonce `n`.
pub open spec fn ksbyte(k: u64, n: u64, i: int) -> u8 {
    ((k + n * 7 + i * 13) % 256) as u8
}

/// XOR a byte sequence against the keystream of `(k, n)`.
pub open spec fn xors(k: u64, n: u64, d: Seq<u8>) -> Seq<u8> {
    Seq::new(d.len(), |i: int| d[i] ^ ksbyte(k, n, i))
}

/// Authenticator over a ciphertext and its associated data.
pub open spec fn mac32(k: u64, n: u64, aad: u64, c: Seq<u8>) -> u64 {
    m32(k + n + aad * 7 + wsum(c) * 11 + 13)
}

/// The weighted byte sum is non-negative and at most `255 * len * (len + 1)`.
pub proof fn lemma_wsum_bound(s: Seq<u8>)
    ensures
        0 <= wsum(s) <= 255 * s.len() * (s.len() + 1),
    decreases s.len(),
{
    if s.len() > 0 {
        lemma_wsum_bound(s.drop_last());
        assert(s.last() * s.len() <= 255 * s.len()) by (nonlinear_arith)
            requires 0 <= s.last() <= 255, s.len() >= 1;
        assert(255 * (s.len() - 1) * s.len() + 255 * s.len() <= 255 * s.len() * (s.len() + 1))
            by (nonlinear_arith)
            requires s.len() >= 1;
    }
}

/// Two sequences with the same elements have the same weighted sum.
pub proof fn lemma_wsum_congruent(s1: Seq<u8>, s2: Seq<u8>)
    requires
        s1 =~= s2,
    ensures
        wsum(s1) == wsum(s2),
{
}

/// Changing the single byte at index `j` changes the weighted sum by exactly
/// the byte difference times the weight `j + 1`.
pub proof fn lemma_wsum_one_diff(s1: Seq<u8>, s2: Seq<u8>, j: int)
    requires
        s1.len() == s2.len(),
        0 <= j < s1.len(),
        forall|i: int| 0 <= i < s1.len() && i != j ==> s1[i] == s2[i],
    ensures
        wsum(s1) - wsum(s2) == (s1[j] - s2[j]) * (j + 1),
    decreases s1.len(),
{
    let d1 = s1.drop_last();
    let d2 = s2.drop_last();
    if j == s1.len() - 1 {
        assert(d1 =~= d2);
        lemma_wsum_congruent(d1, d2);
        assert(s1.last() == s1[j] && s2.last() == s2[j]);
        assert(s1[j] * s1.len() - s2[j] * s1.len() == (s1[j] - s2[j]) * (j + 1))
            by (nonlinear_arith)
            requires j + 1 == s1.len();
    } else {
        assert forall|i: int| 0 <= i < d1.len() && i != j implies d1[i] == d2[i] by {
            assert(d1[i] == s1[i]);
            assert(d2[i] == s2[i]);
        }
        lemma_wsum_one_diff(d1, d2, j);
        assert(d1[j] == s1[j] && d2[j] == s2[j]);
        assert(s1.last() == s1[s1.len() - 1] && s2.last() == s2[s2.len() - 1]);
        assert(s1.last() == s2.last());
        assert(s1.last() * s1.len() == s2.last() * s2.len());
    }
}

/// A non-negative integer splits into its residue and a multiple of the
/// modulus.
pub proof fn lemma_m32_decompose(x: int)
    requires
        x >= 0,
    ensures
        x == (MOD32 as int) * (x / (MOD32 as int)) + m32(x),
        0 <= m32(x) < MOD32,
{
    vstd::arithmetic::div_mod::lemma_fundamental_div_mod(x, MOD32 as int);
    vstd::arithmetic::div_mod::lemma_mod_bound(x, MOD32 as int);
}

/// Two non-negative integers whose difference is congruent to a small
/// nonzero constant have distinct residues.
pub proof fn lemma_m32_offset_distinct(a: int, b: int, c: int, t: int)
    requires
        a >= 0,
        b >= 0,
        a - b == c + (MOD32 as int) * t,
        -(MOD32 as int) < c < (MOD32 as int),
        c != 0,
    ensures
        m32(a) != m32(b),
{
    let m = MOD32 as int;
    lemma_m32_decompose(a);
    lemma_m32_decompose(b);
    if m32(a) == m32(b) {
        let d = a / m - b / m;
        assert(c == m * (d - t));
        let e = d - t;
        assert(e >= 1 ==> m * e >= m) by (nonlinear_arith)
            requires m > 0;
        assert(e <= -1 ==> m * e <= -m) by (nonlinear_arith)
            requires m > 0;
        assert(e == 0);
        assert(false);
    }
}

/// XOR-ing a byte twice with the same mask restores it.
pub proof fn lemma_xor_twice(a: u8, b: u8)
    ensures
        (a ^ b) ^ b == a,
{
    assert((a ^ b) ^ b == a) by (bit_vector);
}

/// XOR-ing twice against the same keystream restores the data.
pub proof fn lemma_xors_involution(k: u64, n: u64, d: Seq<u8>)
    ensures
        xors(k, n, xors(k, n, d)) =~= d,
{
    assert forall|i: int| 0 <= i < d.len() implies xors(k, n, xors(k, n, d))[i] == d[i] by {
        lemma_xor_twice(d[i], ksbyte(k, n, i));
    }
}

} // verus!
