//! The vault: the capability boundary that owns all private key material.
//!
//! Callers refer to secrets only through handles (indices into a private
//! table); no method ever returns a private scalar.  Every operation's result
//! is pinned to the spec model in `crypto`, so the handshake engine above is
//! verified against exact functional contracts while raw key bytes stay
//! behind this boundary.
use vstd::prelude::*;
use crate::crypto::{
    MOD32, KEY_BOUND, dhv, kdf_ck, kdf_k, key_a, key_b, ksbyte, mac32, m32, pubkey, wsum, xors,
    lemma_wsum_bound, MAX_PT,
};
use crate::codec::{be64s, de64s, be64_append, de64_at, lemma_de64_be64};

verus! {

/// Relies on rand::random: draws a value of the requested type from the
/// thread-local generator.  Nothing is promised of the result.
pub assume_specification<T>[ rand::random::<T> ]() -> (r: T)
    where
        rand::distributions::Standard: rand::distributions::Distribution<T>,
;

/// A complete outgoing frame: ciphertext followed by an 8-byte authenticator.
pub open spec fn enc_frame(k: u64, n: u64, aad: u64, pt: Seq<u8>) -> Seq<u8> {
    xors(k, n, pt) + be64s(mac32(k, n, aad, xors(k, n, pt)))
}

/// Authenticated opening of a frame: the recomputed authenticator must equal
/// the trailing field, else the frame is rejected.
pub open spec fn dec_frame(k: u64, n: u64, aad: u64, f: Seq<u8>) -> Option<Seq<u8>> {
    if f.len() >= 8 && de64s(f.skip(f.len() - 8)) == mac32(k, n, aad, f.take(f.len() - 8)) {
        Some(xors(k, n, f.take(f.len() - 8)))
    } else {
        None
    }
}

/// Opening inverts sealing under the same key, nonce and associated data.
pub proof fn lemma_dec_enc(k: u64, n: u64, aad: u64, pt: Seq<u8>)
    ensures
        dec_frame(k, n, aad, enc_frame(k, n, aad, pt)) == Some(xors(k, n, xors(k, n, pt))),
        enc_frame(k, n, aad, pt).len() == pt.len() + 8,
{
    let c = xors(k, n, pt);
    let f = enc_frame(k, n, aad, pt);
    assert(f.take(f.len() - 8) =~= c);
    assert(f.skip(f.len() - 8) =~= be64s(mac32(k, n, aad, c)));
    lemma_de64_be64(mac32(k, n, aad, c));
}

/// The key store.  Entries are private scalars or derived symmetric keys;
/// `None` marks a released handle.
pub struct Vault {
    keys: Vec<Option<u64>>,
}

impl Vault {
    /// Whether handle `h` currently refers to a stored secret.
    pub closed spec fn live(&self, h: int) -> bool {
        0 <= h < self.keys@.len() && self.keys@[h] is Some
    }

    /// The secret behind a live handle.
    pub closed spec fn val(&self, h: int) -> u64 {
        self.keys@[h]->Some_0
    }

    /// Every stored secret is reduced below the modulus.
    pub closed spec fn wf(&self) -> bool {
        forall|h: int| self.live(h) ==> self.val(h) < MOD32
    }

    /// `post` keeps every secret that `pre` held.
    pub open spec fn extends(pre: &Vault, post: &Vault) -> bool {
        forall|h: int| pre.live(h) ==> post.live(h) && post.val(h) == pre.val(h)
    }

    /// A fresh vault with no stored secrets.
    pub fn new() -> (v: Vault)
        ensures
            v.wf(),
            forall|h: int| !v.live(h),
    {
        Vault { keys: Vec::new() }
    }

    /// Store a secret and hand back its handle.
    fn store(&mut self, x: u64) -> (h: usize)
        requires
            old(self).wf(),
            x < MOD32,
        ensures
            final(self).wf(),
            Self::extends(old(self), final(self)),
            final(self).live(h as int),
            !old(self).live(h as int),
            final(self).val(h as int) == x,
    {
        let h = self.keys.len();
        self.keys.push(Some(x));
        proof {
            assert forall|t: int| self.live(t) implies self.val(t) < MOD32 by {
                if t < h {
                    assert(old(self).live(t) && old(self).val(t) == self.val(t));
                }
            }
            assert forall|t: int| old(self).live(t) implies self.live(t)
                && self.val(t) == old(self).val(t) by {
                assert(self.keys@[t] == old(self).keys@[t]);
            }
        }
        h
    }

    /// Draw a fresh private scalar and keep it behind a handle.
    pub fn generate_key(&mut self) -> (h: usize)
        requires
            old(self).wf(),
        ensures
            final(self).wf(),
            Self::extends(old(self), final(self)),
            final(self).live(h as int),
            !old(self).live(h as int),
            final(self).val(h as int) < KEY_BOUND,
    {
        let raw: u64 = rand::random();
        self.store(raw % KEY_BOUND)
    }

    /// The public key of the private scalar behind `h`.
    pub fn public_key(&self, h: usize) -> (p: u64)
        requires
            self.live(h as int),
            self.val(h as int) < KEY_BOUND,
        ensures
            p == pubkey(self.val(h as int)),
            p < MOD32,
    {
        self.keys[h].unwrap() + crate::crypto::GEN
    }

    /// Shared secret of the scalar behind `h` and a peer's public value.
    pub fn dh(&mut self, h: usize, peer: u64) -> (sh: usize)
        requires
            old(self).wf(),
            old(self).live(h as int),
        ensures
            final(self).wf(),
            Self::extends(old(self), final(self)),
            final(self).live(sh as int),
            !old(self).live(sh as int),
            final(self).val(sh as int) == dhv(old(self).val(h as int), peer),
    {
        let x = self.keys[h].unwrap();
        let s = (x + peer % MOD32) % MOD32;
        proof {
            let m = MOD32 as int;
            vstd::arithmetic::div_mod::lemma_mod_bound(peer as int, m);
            vstd::arithmetic::div_mod::lemma_add_mod_noop(x as int, peer as int, m);
            vstd::arithmetic::div_mod::lemma_mod_twice(x as int + peer as int % m, m);
            assert((x as int + peer as int % m) % m == (x as int + peer as int) % m);
        }
        self.store(s)
    }

    /// One step of the key schedule: next chaining value and a fresh message
    /// key behind a handle.
    pub fn kdf(&mut self, ck: u64, sh: usize) -> (r: (u64, usize))
        requires
            old(self).wf(),
            old(self).live(sh as int),
            ck < MOD32,
        ensures
            final(self).wf(),
            Self::extends(old(self), final(self)),
            r.0 == kdf_ck(ck, old(self).val(sh as int)),
            r.0 < MOD32,
            final(self).live(r.1 as int),
            !old(self).live(r.1 as int),
            final(self).val(r.1 as int) == kdf_k(ck, old(self).val(sh as int)),
    {
        let s = self.keys[sh].unwrap();
        let ck2 = (ck * 33 + s * 3 + 1) % MOD32;
        let k = (ck * 65 + s + 2) % MOD32;
        let kh = self.store(k);
        (ck2, kh)
    }

    /// Split the final chaining value into the two directional session keys.
    pub fn split_keys(&mut self, ck: u64) -> (r: (usize, usize))
        requires
            old(self).wf(),
            ck < MOD32,
        ensures
            final(self).wf(),
            Self::extends(old(self), final(self)),
            final(self).live(r.0 as int),
            final(self).live(r.1 as int),
            r.0 != r.1,
            final(self).val(r.0 as int) == key_a(ck),
            final(self).val(r.1 as int) == key_b(ck),
    {
        let ha = self.store((ck * 3 + 1) % MOD32);
        let hb = self.store((ck * 3 + 2) % MOD32);
        (ha, hb)
    }

    /// Release the secret behind `h`; every other handle keeps its value.
    pub fn release(&mut self, h: usize)
        requires
            old(self).wf(),
        ensures
            final(self).wf(),
            !final(self).live(h as int),
            forall|t: int| old(self).live(t) && t != h ==> final(self).live(t)
                && final(self).val(t) == old(self).val(t),
            forall|t: int| !old(self).live(t) ==> !final(self).live(t),
    {
        if h < self.keys.len() {
            self.keys.set(h, None);
        }
        proof {
            assert forall|t: int| self.live(t) implies self.val(t) < MOD32 by {
                assert(old(self).live(t) && old(self).val(t) == self.val(t));
            }
        }
    }

    /// Seal `pt` into a frame under the key behind `kh`.
    pub fn aead_encrypt(&self, kh: usize, n: u64, pt: &Vec<u8>, aad: u64) -> (c: Vec<u8>)
        requires
            self.wf(),
            self.live(kh as int),
            n < MOD32,
            aad < MOD32,
            pt@.len() <= MAX_PT,
        ensures
            c@ == enc_frame(self.val(kh as int), n, aad, pt@),
            c@.len() == pt@.len() + 8,
    {
        let k = self.keys[kh].unwrap();
        let mut c = xor_stream(k, n, pt);
        let t = mac_value(k, n, aad, &c);
        proof {
            assert(c@ == xors(k, n, pt@));
        }
        be64_append(&mut c, t);
        c
    }

    /// Open a frame under the key behind `kh`; `None` means the authenticator
    /// did not match and the frame must be discarded.
    pub fn aead_decrypt(&self, kh: usize, n: u64, f: &Vec<u8>, aad: u64) -> (r: Option<Vec<u8>>)
        requires
            self.wf(),
            self.live(kh as int),
            n < MOD32,
            aad < MOD32,
            f@.len() <= MAX_PT + 8,
        ensures
            r is Some <==> dec_frame(self.val(kh as int), n, aad, f@) is Some,
            r is Some ==> r->Some_0@ == dec_frame(self.val(kh as int), n, aad, f@)->Some_0,
    {
        let k = self.keys[kh].unwrap();
        if f.len() < 8 {
            return None;
        }
        let clen = f.len() - 8;
        let c = copy_range(f, 0, clen);
        proof {
            assert(c@ =~= f@.take(f@.len() - 8));
        }
        let t = de64_at(f, clen);
        proof {
            assert(f@.subrange(clen as int, clen as int + 8) =~= f@.skip(f@.len() - 8));
        }
        let expect = mac_value(k, n, aad, &c);
        if t == expect {
            Some(xor_stream(k, n, &c))
        } else {
            None
        }
    }
}

/// XOR `d` against the keystream of `(k, n)`.
fn xor_stream(k: u64, n: u64, d: &Vec<u8>) -> (r: Vec<u8>)
    requires
        k < MOD32,
        n < MOD32,
        d@.len() <= MAX_PT,
    ensures
        r@ == xors(k, n, d@),
{
    let mut r: Vec<u8> = Vec::new();
    let mut i: usize = 0;
    while i < d.len()
        invariant
            i <= d@.len(),
            k < MOD32,
            n < MOD32,
            d@.len() <= MAX_PT,
            r@.len() == i,
            forall|t: int| 0 <= t < i ==> r@[t] == xors(k, n, d@)[t],
        decreases d@.len() - i,
    {
        let ks = ((k + n * 7 + (i as u64) * 13) % 256) as u8;
        proof {
            assert(ks == ksbyte(k, n, i as int));
        }
        r.push(d[i] ^ ks);
        i = i + 1;
    }
    proof {
        assert(r@ =~= xors(k, n, d@));
    }
    r
}

/// Compute the authenticator of `(k, n, aad, c)`.
fn mac_value(k: u64, n: u64, aad: u64, c: &Vec<u8>) -> (r: u64)
    requires
        k < MOD32,
        n < MOD32,
        aad < MOD32,
        c@.len() <= MAX_PT,
    ensures
        r == mac32(k, n, aad, c@),
        r < MOD32,
{
    let w = wsum_value(c);
    proof {
        lemma_wsum_bound(c@);
        assert(255 * c@.len() * (c@.len() + 1) <= 255 * 65520 * 65521) by (nonlinear_arith)
            requires 0 <= c@.len() <= 65520;
    }
    (k + n + aad * 7 + w * 11 + 13) % MOD32
}

/// Compute the position-weighted byte sum of `c`.
fn wsum_value(c: &Vec<u8>) -> (r: u64)
    requires
        c@.len() <= MAX_PT,
    ensures
        r == wsum(c@),
{
    let mut acc: u64 = 0;
    let mut i: usize = 0;
    proof {
        assert(c@.take(0) =~= Seq::<u8>::empty());
    }
    while i < c.len()
        invariant
            i <= c@.len(),
            c@.len() <= MAX_PT,
            acc == wsum(c@.take(i as int)),
            acc <= 255 * i * (i + 1),
        decreases c@.len() - i,
    {
        proof {
            assert(c@.take(i as int + 1).drop_last() =~= c@.take(i as int));
            assert(c@.take(i as int + 1).last() == c@[i as int]);
            assert(acc + (c@[i as int] as int) * (i + 1) <= 255 * (i + 1) * (i + 2))
                by (nonlinear_arith)
                requires
                    acc <= 255 * i * (i + 1),
                    0 <= i,
                    0 <= c@[i as int] <= 255;
            assert(255 * (i + 1) * (i + 2) <= 255 * 65521 * 65522) by (nonlinear_arith)
                requires 0 <= i + 1 <= 65521;
        }
        acc = acc + (c[i] as u64) * ((i as u64) + 1);
        i = i + 1;
    }
    proof {
        assert(c@.take(c@.len() as int) =~= c@);
    }
    acc
}

/// Absorb `d` into the transcript-hash value `h`.
pub fn mix_value(h: u64, d: &Vec<u8>) -> (r: u64)
    requires
        h < MOD32,
        d@.len() <= MAX_PT,
    ensures
        r == crate::crypto::mixh(h, d@),
        r < MOD32,
{
    let w = wsum_value(d);
    proof {
        lemma_wsum_bound(d@);
        assert(255 * d@.len() * (d@.len() + 1) <= 255 * 65520 * 65521) by (nonlinear_arith)
            requires 0 <= d@.len() <= 65520;
    }
    (h * 31 + w + (d.len() as u64)) % MOD32
}

/// Copy the bytes of `v` in `[from, to)` into a fresh vector.
pub fn copy_range(v: &Vec<u8>, from: usize, to: usize) -> (r: Vec<u8>)
    requires
        from <= to,
        to <= v@.len(),
    ensures
        r@ == v@.subrange(from as int, to as int),
{
    let mut r: Vec<u8> = Vec::new();
    let mut i: usize = from;
    while i < to
        invariant
            from <= i <= to,
            to <= v@.len(),
            r@.len() == i - from,
            forall|t: int| 0 <= t < i - from ==> r@[t] == v@[from + t],
        decreases to - i,
    {
        r.push(v[i]);
        i = i + 1;
    }
    proof {
        assert(r@ =~= v@.subrange(from as int, to as int));
    }
    r
}

} // verus!
