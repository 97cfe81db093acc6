//! Unit-level scenarios for the key exchanger, the vault and the codec.
use secure_channel::codec::{auth_hash_bytes, be64_append, de64_at};
use secure_channel::exchanger::{KeyExchanger, Stage, Status};
use secure_channel::vault::Vault;

fn run_exchange(
    tamper: Option<(usize, usize)>,
) -> (KeyExchanger, KeyExchanger, Vault, Vec<Status>) {
    // `tamper` flips one bit: (message index 1..=3, byte position).
    let mut v = Vault::new();
    let mut i = KeyExchanger::initiator(&mut v);
    let mut r = KeyExchanger::responder(&mut v);
    let mut statuses = Vec::new();
    let empty: Vec<u8> = Vec::new();
    let (m1, s) = i.process(&mut v, &empty);
    statuses.push(s);
    let mut m1 = m1.unwrap();
    if let Some((1, p)) = tamper {
        m1[p] ^= 1;
    }
    let (m2, s) = r.process(&mut v, &m1);
    statuses.push(s);
    if s == Status::Failed {
        return (i, r, v, statuses);
    }
    let mut m2 = m2.unwrap();
    if let Some((2, p)) = tamper {
        m2[p] ^= 1;
    }
    let (m3, s) = i.process(&mut v, &m2);
    statuses.push(s);
    if s == Status::Failed {
        return (i, r, v, statuses);
    }
    let mut m3 = m3.unwrap();
    if let Some((3, p)) = tamper {
        m3[p] ^= 1;
    }
    let (_, s) = r.process(&mut v, &m3);
    statuses.push(s);
    (i, r, v, statuses)
}

#[test]
fn honest_exchange_completes_with_agreement() {
    let (i, r, _v, statuses) = run_exchange(None);
    assert_eq!(
        statuses,
        vec![Status::InProgress, Status::InProgress, Status::Completed, Status::Completed]
    );
    assert_eq!(i.stage, Stage::Complete);
    assert_eq!(r.stage, Stage::Complete);
    assert_eq!(i.auth, r.auth);
    assert_eq!(auth_hash_bytes(i.auth).len(), 32);
}

#[test]
fn message_sizes_match_the_pattern() {
    let mut v = Vault::new();
    let mut i = KeyExchanger::initiator(&mut v);
    let mut r = KeyExchanger::responder(&mut v);
    let empty: Vec<u8> = Vec::new();
    let (m1, _) = i.process(&mut v, &empty);
    let m1 = m1.unwrap();
    assert_eq!(m1.len(), 8);
    let (m2, _) = r.process(&mut v, &m1);
    let m2 = m2.unwrap();
    assert_eq!(m2.len(), 24);
    let (m3, _) = i.process(&mut v, &m2);
    assert_eq!(m3.unwrap().len(), 16);
}

#[test]
fn tampered_msg1_leading_byte_fails_at_responder() {
    let (_i, r, _v, statuses) = run_exchange(Some((1, 0)));
    assert_eq!(statuses.last(), Some(&Status::Failed));
    assert_eq!(r.stage, Stage::Failed);
}

#[test]
fn tampered_msg1_key_byte_fails_at_initiator() {
    let (i, _r, _v, statuses) = run_exchange(Some((1, 7)));
    // The responder cannot see the flip, but the initiator's check of
    // message 2 must reject the diverged transcript.
    assert_eq!(statuses, vec![Status::InProgress, Status::InProgress, Status::Failed]);
    assert_eq!(i.stage, Stage::Failed);
}

#[test]
fn tampered_msg2_fails_at_initiator() {
    for p in [0usize, 5, 9, 15, 17, 23] {
        let (i, r, _v, statuses) = run_exchange(Some((2, p)));
        assert_eq!(statuses.last(), Some(&Status::Failed), "byte {}", p);
        assert_eq!(i.stage, Stage::Failed);
        assert_ne!(r.stage, Stage::Complete);
    }
}

#[test]
fn tampered_msg3_fails_at_responder() {
    for p in [0usize, 3, 7, 8, 12, 15] {
        let (i, r, _v, statuses) = run_exchange(Some((3, p)));
        assert_eq!(statuses.last(), Some(&Status::Failed), "byte {}", p);
        assert_eq!(r.stage, Stage::Failed);
        // The initiator finished, but no agreement can be claimed: the
        // responder never reached `Complete`.
        assert_eq!(i.stage, Stage::Complete);
    }
}

#[test]
fn exchanger_is_single_use() {
    let (mut i, _r, mut v, _s) = run_exchange(None);
    let empty: Vec<u8> = Vec::new();
    let (out, s) = i.process(&mut v, &empty);
    assert!(out.is_none());
    assert_eq!(s, Status::Completed);
    assert_eq!(i.stage, Stage::Complete);
}

#[test]
fn aead_round_trip_and_tamper() {
    let mut v = Vault::new();
    let kh = v.generate_key();
    let pt = vec![9u8, 8, 7, 6, 5];
    let frame = v.aead_encrypt(kh, 3, &pt, 11);
    assert_eq!(frame.len(), pt.len() + 8);
    assert_eq!(v.aead_decrypt(kh, 3, &frame, 11).unwrap(), pt);
    // Any single-byte change is rejected.
    for p in 0..frame.len() {
        let mut bad = frame.clone();
        bad[p] ^= 0x20;
        assert!(v.aead_decrypt(kh, 3, &bad, 11).is_none(), "byte {}", p);
    }
    // Wrong nonce and wrong associated data are rejected.
    assert!(v.aead_decrypt(kh, 4, &frame, 11).is_none());
    assert!(v.aead_decrypt(kh, 3, &frame, 12).is_none());
}

#[test]
fn be64_round_trip_exact() {
    let mut b: Vec<u8> = Vec::new();
    be64_append(&mut b, 0x0102030405060708);
    assert_eq!(b, vec![1u8, 2, 3, 4, 5, 6, 7, 8]);
    assert_eq!(de64_at(&b, 0), 0x0102030405060708);
    let mut z: Vec<u8> = Vec::new();
    be64_append(&mut z, 300);
    assert_eq!(z, vec![0u8, 0, 0, 0, 0, 0, 1, 44]);
    assert_eq!(de64_at(&z, 0), 300);
}

#[test]
fn auth_hash_is_deterministic_and_32_bytes() {
    let a = auth_hash_bytes(123456789);
    let b = auth_hash_bytes(123456789);
    let c = auth_hash_bytes(123456790);
    assert_eq!(a.len(), 32);
    assert_eq!(a, b);
    assert_ne!(a, c);
}

#[test]
fn released_handles_reject_reuse_via_close() {
    let mut v = Vault::new();
    let kh = v.generate_key();
    let pt = vec![1u8];
    let _frame = v.aead_encrypt(kh, 1, &pt, 0);
    v.release(kh);
    // A fresh handle still works; the vault itself survives releases.
    let kh2 = v.generate_key();
    let frame2 = v.aead_encrypt(kh2, 1, &pt, 0);
    assert_eq!(v.aead_decrypt(kh2, 1, &frame2, 0).unwrap(), pt);
}

#[test]
fn policy_path_formats_exactly() {
    assert_eq!(
        secure_channel::policy::policy_path("r1", "outlet"),
        "/policy/r1/outlet"
    );
    assert_eq!(secure_channel::policy::policy_path("", ""), "/policy//");
}
