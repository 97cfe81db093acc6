//! Protocol-level theorems about the handshake model.
//!
//! These are stated over the spec functions that the executable engine is
//! pinned to, so each theorem transfers directly to the running code.
use vstd::prelude::*;
use crate::crypto::{
    MOD32, KEY_BOUND, CK_INIT, H_INIT, MAX_PT, dhv, kdf_ck, kdf_k, mixh, pubkey, xors, mac32,
    wsum, m32, lemma_xors_involution, lemma_wsum_one_diff, lemma_wsum_bound,
    lemma_m32_decompose, lemma_m32_offset_distinct,
};
use crate::codec::{be64s, de64s, wexp, lemma_de64_be64, lemma_de64_one_diff, lemma_de64_range,
    lemma_be64_small, lemma_de64_diff_weight};
use crate::vault::{enc_frame, dec_frame, lemma_dec_enc};
use crate::exchanger::{msg1_spec, h1_spec, resp_step1, init_step2, resp_step3};

verus! {

/// Two honest parties that exchange the three handshake messages unchanged
/// both complete, compute the identical transcript authentication value, and
/// derive complementary directional session keys.
pub proof fn lemma_handshake_agreement(ei: u64, si: u64, er: u64, sr: u64)
    requires
        ei < KEY_BOUND,
        si < KEY_BOUND,
        er < KEY_BOUND,
        sr < KEY_BOUND,
    ensures
        ({
            let m1 = msg1_spec(ei);
            let r1 = resp_step1(er, sr, m1);
            let i2 = init_step2(ei, si, h1_spec(m1), r1.msg2);
            let r3 = resp_step3(er, r1.h2, r1.ck2, r1.k2, i2.msg3);
            &&& r1.ok
            &&& i2.ok
            &&& r3.ok
            &&& i2.auth == r3.auth
            &&& i2.k_send == r3.k_recv
            &&& i2.k_recv == r3.k_send
        }),
{
    let m1 = msg1_spec(ei);
    lemma_de64_be64(pubkey(ei));
    assert(m1.len() == 8);
    assert(de64s(m1) == pubkey(ei));
    let r1 = resp_step1(er, sr, m1);
    assert(r1.ok);

    // The responder's view of message 2.
    let pa = be64s(pubkey(er));
    let h1 = mixh(crate::crypto::H_INIT, m1);
    let h2a = mixh(h1, pa);
    let ee = dhv(er, pubkey(ei));
    let ck1 = kdf_ck(CK_INIT, ee);
    let k1 = kdf_k(CK_INIT, ee);
    let enc = enc_frame(k1, 0, h2a, be64s(pubkey(sr)));
    let m2 = pa + enc;
    assert(r1.msg2 == m2);

    // The initiator parses the same bytes.
    assert(m2.len() == 24);
    assert(m2.take(8) =~= pa);
    assert(m2.skip(8) =~= enc);
    lemma_de64_be64(pubkey(er));
    assert(de64s(m2.take(8)) == pubkey(er));

    // Both shared secrets agree: x + (y + GEN) == y + (x + GEN).
    assert(dhv(ei, pubkey(er)) == ee);

    lemma_dec_enc(k1, 0, h2a, be64s(pubkey(sr)));
    lemma_xors_involution(k1, 0, be64s(pubkey(sr)));
    assert(dec_frame(k1, 0, h2a, enc) == Some(xors(k1, 0, xors(k1, 0, be64s(pubkey(sr))))));
    assert(xors(k1, 0, xors(k1, 0, be64s(pubkey(sr)))) == be64s(pubkey(sr)));
    lemma_de64_be64(pubkey(sr));

    let i2 = init_step2(ei, si, h1_spec(m1), m2);
    assert(i2.ok);

    // The static-ephemeral secrets agree in both directions.
    assert(dhv(ei, pubkey(sr)) == dhv(sr, pubkey(ei)));
    let se = dhv(sr, pubkey(ei));
    let ck2 = kdf_ck(ck1, se);
    let k2 = kdf_k(ck1, se);
    assert(r1.ck2 == ck2 && r1.k2 == k2);
    let h2 = mixh(h2a, enc);
    assert(r1.h2 == h2);

    // Message 3 round trip on the responder side.
    let m3 = enc_frame(k2, 0, h2, be64s(pubkey(si)));
    assert(i2.msg3 == m3);
    assert(m3.len() == 16) by {
        lemma_dec_enc(k2, 0, h2, be64s(pubkey(si)));
    }
    lemma_dec_enc(k2, 0, h2, be64s(pubkey(si)));
    lemma_xors_involution(k2, 0, be64s(pubkey(si)));
    lemma_de64_be64(pubkey(si));
    let r3 = resp_step3(er, h2, ck2, k2, m3);
    assert(r3.ok);

    // The final secrets agree, hence the chaining values and auth agree.
    assert(dhv(si, pubkey(er)) == dhv(er, pubkey(si)));
}


/// A relayed application frame reaches the peer intact: decoding the nonce
/// field gives back the nonce, and opening the sealed remainder under the
/// same key gives back exactly the plaintext that was sent.
pub proof fn lemma_relay_round_trip(k: u64, n: u64, pt: Seq<u8>)
    ensures
        ({
            let f = be64s(n) + enc_frame(k, n, 0, pt);
            &&& f.len() == pt.len() + 16
            &&& de64s(f.take(8)) == n
            &&& dec_frame(k, n, 0, f.skip(8)) == Some(pt)
        }),
{
    let f = be64s(n) + enc_frame(k, n, 0, pt);
    lemma_dec_enc(k, n, 0, pt);
    assert(f.take(8) =~= be64s(n));
    lemma_de64_be64(n);
    assert(f.skip(8) =~= enc_frame(k, n, 0, pt));
    lemma_xors_involution(k, n, pt);
    assert(xors(k, n, xors(k, n, pt)) == pt);
}

/// Changing any single byte of a sealed frame makes it fail to open.
pub proof fn lemma_frame_tamper(k: u64, n: u64, aad: u64, pt: Seq<u8>, ft: Seq<u8>, j: int)
    requires
        pt.len() <= MAX_PT,
        ft.len() == pt.len() + 8,
        0 <= j < ft.len(),
        ft[j] != enc_frame(k, n, aad, pt)[j],
        forall|t: int| 0 <= t < ft.len() && t != j ==> ft[t] == enc_frame(k, n, aad, pt)[t],
    ensures
        dec_frame(k, n, aad, ft) is None,
{
    let f = enc_frame(k, n, aad, pt);
    let c = xors(k, n, pt);
    let tag = mac32(k, n, aad, c);
    let clen = pt.len() as int;
    assert(f.len() == clen + 8);
    assert(f.take(clen) =~= c);
    assert(f.skip(clen) =~= be64s(tag));
    let ct = ft.take(clen);
    let tt = ft.skip(clen);
    if j < clen {
        assert(tt =~= be64s(tag));
        lemma_de64_be64(tag);
        assert(de64s(tt) == tag);
        assert(ct[j] == ft[j] && c[j] == f[j]);
        lemma_wsum_one_diff(ct, c, j);
        let d = ct[j] - c[j];
        assert(d != 0);
        let cs = 11 * d * (j + 1);
        assert(-255 <= d <= 255);
        assert(cs != 0 && -(MOD32 as int) < cs < (MOD32 as int)) by (nonlinear_arith)
            requires
                -255 <= d <= 255,
                d != 0,
                0 <= j < 65520,
                cs == 11 * d * (j + 1);
        lemma_wsum_bound(ct);
        lemma_wsum_bound(c);
        let bi = k + n + aad * 7 + wsum(ct) * 11 + 13;
        let br = k + n + aad * 7 + wsum(c) * 11 + 13;
        assert(bi - br == cs) by (nonlinear_arith)
            requires
                wsum(ct) - wsum(c) == d * (j + 1),
                bi == k + n + aad * 7 + wsum(ct) * 11 + 13,
                br == k + n + aad * 7 + wsum(c) * 11 + 13,
                cs == 11 * d * (j + 1);
        lemma_m32_offset_distinct(bi, br, cs, 0);
        assert(mac32(k, n, aad, ct) != tag);
    } else {
        assert(ct =~= c);
        assert forall|t: int| 0 <= t < 8 && t != j - clen implies tt[t] == be64s(tag)[t] by {
            assert(tt[t] == ft[clen + t]);
            assert(f[clen + t] == be64s(tag)[t]);
        }
        assert(tt[j - clen] == ft[j] && be64s(tag)[j - clen] == f[j]);
        lemma_de64_one_diff(tt, be64s(tag), j - clen);
        lemma_de64_be64(tag);
        assert(de64s(tt) != tag);
        assert(mac32(k, n, aad, ct) == mac32(k, n, aad, c));
    }
}

/// Changing any single byte of message 3 drives the responder to `Failed`:
/// the tampered message never finalizes the responder side.
pub proof fn lemma_msg3_tamper(er: u64, h2: u64, ck2: u64, k2: u64, sp: u64, m3t: Seq<u8>,
    j: int)
    requires
        ({
            let m3 = enc_frame(k2, 0, h2, be64s(sp));
            &&& m3t.len() == 16
            &&& 0 <= j < 16
            &&& m3t[j] != m3[j]
            &&& forall|t: int| 0 <= t < 16 && t != j ==> m3t[t] == m3[t]
        }),
    ensures
        !resp_step3(er, h2, ck2, k2, m3t).ok,
{
    lemma_frame_tamper(k2, 0, h2, be64s(sp), m3t, j);
}

/// Changing any single byte of message 2 drives the initiator to `Failed`:
/// either the ephemeral field fails validation, or the authenticator check
/// fails because the key schedule or the transcript hash diverged.
#[verifier::rlimit(100)]
pub proof fn lemma_msg2_tamper(ei: u64, si: u64, er: u64, sr: u64, m2t: Seq<u8>, j: int)
    requires
        ei < KEY_BOUND,
        si < KEY_BOUND,
        er < KEY_BOUND,
        sr < KEY_BOUND,
        m2t.len() == 24,
        0 <= j < 24,
        ({
            let r1 = resp_step1(er, sr, msg1_spec(ei));
            &&& m2t[j] != r1.msg2[j]
            &&& forall|t: int| 0 <= t < 24 && t != j ==> m2t[t] == r1.msg2[t]
        }),
    ensures
        !init_step2(ei, si, h1_spec(msg1_spec(ei)), m2t).ok,
{
    let m1 = msg1_spec(ei);
    lemma_de64_be64(pubkey(ei));
    let r1 = resp_step1(er, sr, m1);
    assert(r1.ok);
    let pa = be64s(pubkey(er));
    let h1 = h1_spec(m1);
    let h2a = mixh(h1, pa);
    let ee = dhv(er, pubkey(ei));
    let ck1 = kdf_ck(CK_INIT, ee);
    let k1 = kdf_k(CK_INIT, ee);
    let enc = enc_frame(k1, 0, h2a, be64s(pubkey(sr)));
    assert(r1.msg2 == pa + enc);
    assert(r1.msg2.take(8) =~= pa);
    assert(r1.msg2.skip(8) =~= enc);
    let t8 = m2t.take(8);
    lemma_be64_small(pubkey(er));
    if j < 4 {
        assert(t8[j] == m2t[j] && pa[j] == r1.msg2[j]);
        assert(t8[j] != 0);
        lemma_de64_range(t8);
        assert(de64s(t8) >= MOD32);
    } else if j < 8 {
        assert forall|t: int| 0 <= t < 8 && t != j implies t8[t] == pa[t] by {
            assert(t8[t] == m2t[t] && pa[t] == r1.msg2[t]);
        }
        assert(t8[j] == m2t[j] && pa[j] == r1.msg2[j]);
        assert(t8[0] == 0 && t8[1] == 0 && t8[2] == 0 && t8[3] == 0);
        lemma_de64_range(t8);
        assert(de64s(t8) < MOD32);
        lemma_de64_diff_weight(t8, pa, j);
        lemma_de64_be64(pubkey(er));
        let re2 = de64s(t8) as u64;
        let d = t8[j] - pa[j];
        let w = wexp(j);
        assert(re2 - pubkey(er) == d * w);
        // Key-schedule divergence.
        let eei = dhv(ei, re2);
        let a1 = ei + re2;
        let a2 = er + pubkey(ei);
        assert(a2 == ei + pubkey(er));
        lemma_m32_decompose(a1);
        lemma_m32_decompose(a2);
        let q1 = a1 / (MOD32 as int);
        let q2 = a2 / (MOD32 as int);
        assert(eei - ee == d * w + (MOD32 as int) * (q2 - q1));
        let b1 = CK_INIT * 65 + eei + 2;
        let b2 = CK_INIT * 65 + ee + 2;
        lemma_m32_decompose(b1);
        lemma_m32_decompose(b2);
        let q3 = b1 / (MOD32 as int);
        let q4 = b2 / (MOD32 as int);
        let k1i = kdf_k(CK_INIT, eei);
        assert(k1i - k1 == d * w + (MOD32 as int) * (q2 - q1 + q4 - q3));
        // Transcript divergence.
        lemma_wsum_one_diff(t8, pa, j);
        lemma_wsum_bound(t8);
        lemma_wsum_bound(pa);
        let p1 = h1 * 31 + wsum(t8) + 8;
        let p2 = h1 * 31 + wsum(pa) + 8;
        lemma_m32_decompose(p1);
        lemma_m32_decompose(p2);
        let q5 = p1 / (MOD32 as int);
        let q6 = p2 / (MOD32 as int);
        let h2ai = mixh(h1, t8);
        assert(h2ai - h2a == d * (j + 1) + (MOD32 as int) * (q6 - q5));
        // Authenticator comparison over the intact sealed section.
        let cs = xors(k1, 0, be64s(pubkey(sr)));
        let tag = mac32(k1, 0, h2a, cs);
        assert(enc.take(8) =~= cs);
        assert(enc.skip(8) =~= be64s(tag));
        let ft = m2t.skip(8);
        assert(ft =~= enc);
        lemma_wsum_bound(cs);
        let bi = k1i + 0 + h2ai * 7 + wsum(cs) * 11 + 13;
        let br = k1 + 0 + h2a * 7 + wsum(cs) * 11 + 13;
        let csm = d * (w + 7 * (j + 1));
        assert(bi - br == csm + (MOD32 as int) * (q2 - q1 + q4 - q3 + 7 * (q6 - q5)))
            by (nonlinear_arith)
            requires
                bi == k1i + 0 + h2ai * 7 + wsum(cs) * 11 + 13,
                br == k1 + 0 + h2a * 7 + wsum(cs) * 11 + 13,
                k1i - k1 == d * w + (MOD32 as int) * (q2 - q1 + q4 - q3),
                h2ai - h2a == d * (j + 1) + (MOD32 as int) * (q6 - q5),
                csm == d * (w + 7 * (j + 1));
        assert(csm != 0 && -(MOD32 as int) < csm < (MOD32 as int)) by (nonlinear_arith)
            requires
                -255 <= d <= 255,
                d != 0,
                4 <= j < 8,
                w == wexp(j),
                csm == d * (w + 7 * (j + 1)),
                1 <= w <= 16777216;
        lemma_m32_offset_distinct(bi, br, csm, q2 - q1 + q4 - q3 + 7 * (q6 - q5));
        assert(mac32(k1i, 0, h2ai, cs) != tag);
        lemma_de64_be64(tag);
        assert(de64s(ft.skip(8)) == tag) by {
            assert(ft.skip(8) =~= be64s(tag));
        }
        assert(ft.take(8) =~= cs);
        assert(dec_frame(k1i, 0, h2ai, ft) is None);
    } else {
        assert(t8 =~= pa);
        lemma_de64_be64(pubkey(er));
        let ft = m2t.skip(8);
        assert(ft[j - 8] == m2t[j] && enc[j - 8] == r1.msg2[j]);
        assert forall|t: int| 0 <= t < 16 && t != j - 8 implies ft[t] == enc[t] by {
            assert(ft[t] == m2t[8 + t] && enc[t] == r1.msg2[8 + t]);
        }
        lemma_frame_tamper(k1, 0, h2a, be64s(pubkey(sr)), ft, j - 8);
        assert(mixh(h1, t8) == h2a) by {
            assert(t8 =~= pa);
        }
    }
}

/// Changing any single byte of message 1 prevents agreement: a flip in the
/// leading (always-zero) bytes is rejected by the responder at once, and a
/// flip elsewhere makes the initiator reject message 2, because the two key
/// schedules and transcripts have diverged.
#[verifier::rlimit(100)]
pub proof fn lemma_msg1_tamper(ei: u64, si: u64, er: u64, sr: u64, m1t: Seq<u8>, j: int)
    requires
        ei < KEY_BOUND,
        si < KEY_BOUND,
        er < KEY_BOUND,
        sr < KEY_BOUND,
        m1t.len() == 8,
        0 <= j < 8,
        m1t[j] != msg1_spec(ei)[j],
        forall|t: int| 0 <= t < 8 && t != j ==> m1t[t] == msg1_spec(ei)[t],
    ensures
        j < 4 ==> !resp_step1(er, sr, m1t).ok,
        j >= 4 ==> resp_step1(er, sr, m1t).ok
            && !init_step2(ei, si, h1_spec(msg1_spec(ei)), resp_step1(er, sr, m1t).msg2).ok,
{
    let m1 = msg1_spec(ei);
    lemma_be64_small(pubkey(ei));
    lemma_de64_be64(pubkey(ei));
    if j < 4 {
        assert(m1t[j] != 0);
        lemma_de64_range(m1t);
        assert(de64s(m1t) >= MOD32);
    } else {
        assert(m1t[0] == 0 && m1t[1] == 0 && m1t[2] == 0 && m1t[3] == 0);
        lemma_de64_range(m1t);
        assert(de64s(m1t) < MOD32);
        let r1 = resp_step1(er, sr, m1t);
        assert(r1.ok);
        lemma_de64_diff_weight(m1t, m1, j);
        let re1 = de64s(m1t) as u64;
        let d = m1t[j] - m1[j];
        let w = wexp(j);
        assert(re1 - pubkey(ei) == d * w);
        // The responder's view.
        lemma_wsum_one_diff(m1t, m1, j);
        lemma_wsum_bound(m1t);
        lemma_wsum_bound(m1);
        let g1 = H_INIT * 31 + wsum(m1t) + 8;
        let g2 = H_INIT * 31 + wsum(m1) + 8;
        lemma_m32_decompose(g1);
        lemma_m32_decompose(g2);
        let qg1 = g1 / (MOD32 as int);
        let qg2 = g2 / (MOD32 as int);
        let h1r = mixh(H_INIT, m1t);
        let h1i = h1_spec(m1);
        assert(h1r - h1i == d * (j + 1) + (MOD32 as int) * (qg2 - qg1));
        let pa = be64s(pubkey(er));
        lemma_wsum_bound(pa);
        let p1 = h1r * 31 + wsum(pa) + 8;
        let p2 = h1i * 31 + wsum(pa) + 8;
        lemma_m32_decompose(p1);
        lemma_m32_decompose(p2);
        let qp1 = p1 / (MOD32 as int);
        let qp2 = p2 / (MOD32 as int);
        let h2ar = mixh(h1r, pa);
        let h2ai = mixh(h1i, pa);
        assert(h2ar - h2ai == 31 * d * (j + 1) + (MOD32 as int) * (31 * (qg2 - qg1) + qp2
            - qp1)) by (nonlinear_arith)
            requires
                h2ar == m32(p1),
                h2ai == m32(p2),
                p1 == h1r * 31 + wsum(pa) + 8,
                p2 == h1i * 31 + wsum(pa) + 8,
                h1r - h1i == d * (j + 1) + (MOD32 as int) * (qg2 - qg1),
                m32(p1) == p1 - (MOD32 as int) * qp1,
                m32(p2) == p2 - (MOD32 as int) * qp2;
        // Key-schedule divergence.
        let a1 = er + re1;
        let a2 = er + pubkey(ei);
        lemma_m32_decompose(a1);
        lemma_m32_decompose(a2);
        let qa1 = a1 / (MOD32 as int);
        let qa2 = a2 / (MOD32 as int);
        let eer = dhv(er, re1);
        let eei = dhv(ei, pubkey(er));
        assert(a2 == ei + pubkey(er));
        assert(eer - eei == d * w + (MOD32 as int) * (qa2 - qa1));
        let b1 = CK_INIT * 65 + eer + 2;
        let b2 = CK_INIT * 65 + eei + 2;
        lemma_m32_decompose(b1);
        lemma_m32_decompose(b2);
        let qb1 = b1 / (MOD32 as int);
        let qb2 = b2 / (MOD32 as int);
        let k1r = kdf_k(CK_INIT, eer);
        let k1i = kdf_k(CK_INIT, eei);
        assert(k1r - k1i == d * w + (MOD32 as int) * (qa2 - qa1 + qb2 - qb1));
        // The initiator parses the intact message 2.
        let cs = xors(k1r, 0, be64s(pubkey(sr)));
        let tag = mac32(k1r, 0, h2ar, cs);
        let enc = enc_frame(k1r, 0, h2ar, be64s(pubkey(sr)));
        assert(r1.msg2 == pa + enc);
        assert(r1.msg2.take(8) =~= pa);
        assert(r1.msg2.skip(8) =~= enc);
        lemma_de64_be64(pubkey(er));
        lemma_be64_small(pubkey(er));
        assert(enc.take(8) =~= cs);
        assert(enc.skip(8) =~= be64s(tag));
        lemma_de64_be64(tag);
        lemma_wsum_bound(cs);
        let bi = k1i + 0 + h2ai * 7 + wsum(cs) * 11 + 13;
        let br = k1r + 0 + h2ar * 7 + wsum(cs) * 11 + 13;
        let csm = -d * (w + 217 * (j + 1));
        assert(bi - br == csm + (MOD32 as int) * (-(qa2 - qa1 + qb2 - qb1) - 7 * (31 * (qg2
            - qg1) + qp2 - qp1))) by (nonlinear_arith)
            requires
                bi == k1i + 0 + h2ai * 7 + wsum(cs) * 11 + 13,
                br == k1r + 0 + h2ar * 7 + wsum(cs) * 11 + 13,
                k1r - k1i == d * w + (MOD32 as int) * (qa2 - qa1 + qb2 - qb1),
                h2ar - h2ai == 31 * d * (j + 1) + (MOD32 as int) * (31 * (qg2 - qg1) + qp2
                    - qp1),
                csm == -d * (w + 217 * (j + 1));
        assert(csm != 0 && -(MOD32 as int) < csm < (MOD32 as int)) by (nonlinear_arith)
            requires
                -255 <= d <= 255,
                d != 0,
                4 <= j < 8,
                w == wexp(j),
                csm == -d * (w + 217 * (j + 1)),
                1 <= w <= 16777216;
        lemma_m32_offset_distinct(bi, br, csm,
            -(qa2 - qa1 + qb2 - qb1) - 7 * (31 * (qg2 - qg1) + qp2 - qp1));
        assert(mac32(k1i, 0, h2ai, cs) != tag);
        // Hence the initiator rejects message 2.
        let st = init_step2(ei, si, h1i, r1.msg2);
        assert(de64s(r1.msg2.take(8)) == pubkey(er) && pubkey(er) < MOD32);
        assert(dec_frame(k1i, 0, h2ai, r1.msg2.skip(8)) is None);
        assert(!st.ok);
    }
}

} // verus!
