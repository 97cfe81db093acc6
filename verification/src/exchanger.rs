//! The key exchanger: a three-message mutually authenticated Diffie-Hellman
//! handshake.
//!
//! Message 1 carries the initiator's ephemeral public key in the clear.
//! Message 2 carries the responder's ephemeral public key and its static
//! public key sealed under the ephemeral-ephemeral key.  Message 3 carries
//! the initiator's static public key sealed under the updated key schedule.
//! Each side finalizes with two directional session keys and a transcript
//! hash; the whole exchange is modelled by the `*_step*` spec functions, and
//! the executable `process` is pinned to them exactly.
use vstd::prelude::*;
use crate::crypto::{
    MOD32, KEY_BOUND, CK_INIT, H_INIT, dhv, kdf_ck, kdf_k, key_a, key_b, mixh, pubkey,
};
use crate::codec::{be64s, de64s, be64_append, de64_at};
use crate::vault::{Vault, enc_frame, dec_frame, copy_range, mix_value};

verus! {

/// Progress report of one `process` call.
#[derive(Clone, Copy, PartialEq, Eq, Structural, Debug)]
pub enum Status {
    InProgress,
    Completed,
    Failed,
}

/// Where a handshake stands.
#[derive(Clone, Copy, PartialEq, Eq, Structural, Debug)]
pub enum Stage {
    /// Initiator, before it has emitted message 1.
    InitStart,
    /// Initiator, waiting for message 2.
    InitAwaitMsg2,
    /// Responder, waiting for message 1.
    RespAwaitMsg1,
    /// Responder, waiting for message 3.
    RespAwaitMsg3,
    /// Finalized: session keys and transcript hash are available.
    Complete,
    /// Aborted: a message failed validation.  Never leaves this stage.
    Failed,
}

/// Result of the responder's processing of message 1.
pub ghost struct RespStep1 {
    pub ok: bool,
    pub msg2: Seq<u8>,
    pub h2: u64,
    pub ck2: u64,
    pub k2: u64,
}

/// Result of the initiator's processing of message 2.
pub ghost struct InitStep2 {
    pub ok: bool,
    pub msg3: Seq<u8>,
    pub auth: u64,
    pub k_send: u64,
    pub k_recv: u64,
}

/// Result of the responder's processing of message 3.
pub ghost struct RespStep3 {
    pub ok: bool,
    pub auth: u64,
    pub k_send: u64,
    pub k_recv: u64,
}

/// Message 1 of an initiator with ephemeral scalar `ei`.
pub open spec fn msg1_spec(ei: u64) -> Seq<u8> {
    be64s(pubkey(ei))
}

/// Transcript hash after message 1.
pub open spec fn h1_spec(m1: Seq<u8>) -> u64 {
    mixh(H_INIT, m1)
}

/// The responder's whole reaction to message 1: validation, message 2, and
/// its key-schedule state afterwards.
pub open spec fn resp_step1(er: u64, sr: u64, m1: Seq<u8>) -> RespStep1 {
    if m1.len() != 8 || de64s(m1) >= MOD32 {
        RespStep1 { ok: false, msg2: Seq::empty(), h2: 0, ck2: 0, k2: 0 }
    } else {
        let re = de64s(m1) as u64;
        let h1 = mixh(H_INIT, m1);
        let pa = be64s(pubkey(er));
        let h2a = mixh(h1, pa);
        let ee = dhv(er, re);
        let ck1 = kdf_ck(CK_INIT, ee);
        let k1 = kdf_k(CK_INIT, ee);
        let enc = enc_frame(k1, 0, h2a, be64s(pubkey(sr)));
        let h2 = mixh(h2a, enc);
        let se = dhv(sr, re);
        RespStep1 {
            ok: true,
            msg2: pa + enc,
            h2: h2,
            ck2: kdf_ck(ck1, se),
            k2: kdf_k(ck1, se),
        }
    }
}

/// The initiator's whole reaction to message 2: validation, message 3, and
/// its finalized session state.
pub open spec fn init_step2(ei: u64, si: u64, h1: u64, m2: Seq<u8>) -> InitStep2 {
    if m2.len() != 24 || de64s(m2.take(8)) >= MOD32 {
        InitStep2 { ok: false, msg3: Seq::empty(), auth: 0, k_send: 0, k_recv: 0 }
    } else {
        let re = de64s(m2.take(8)) as u64;
        let h2a = mixh(h1, m2.take(8));
        let ee = dhv(ei, re);
        let ck1 = kdf_ck(CK_INIT, ee);
        let k1 = kdf_k(CK_INIT, ee);
        if dec_frame(k1, 0, h2a, m2.skip(8)) is None {
            InitStep2 { ok: false, msg3: Seq::empty(), auth: 0, k_send: 0, k_recv: 0 }
        } else {
            let rs = de64s(dec_frame(k1, 0, h2a, m2.skip(8))->Some_0) as u64;
            let h2 = mixh(h2a, m2.skip(8));
            let se = dhv(ei, rs);
            let ck2 = kdf_ck(ck1, se);
            let k2 = kdf_k(ck1, se);
            let m3 = enc_frame(k2, 0, h2, be64s(pubkey(si)));
            let h3 = mixh(h2, m3);
            let es = dhv(si, re);
            let ck3 = kdf_ck(ck2, es);
            InitStep2 { ok: true, msg3: m3, auth: h3, k_send: key_a(ck3), k_recv: key_b(ck3) }
        }
    }
}

/// The responder's whole reaction to message 3 and its finalized state.
pub open spec fn resp_step3(er: u64, h2: u64, ck2: u64, k2: u64, m3: Seq<u8>) -> RespStep3 {
    if m3.len() != 16 || dec_frame(k2, 0, h2, m3) is None {
        RespStep3 { ok: false, auth: 0, k_send: 0, k_recv: 0 }
    } else {
        let rs = de64s(dec_frame(k2, 0, h2, m3)->Some_0) as u64;
        let h3 = mixh(h2, m3);
        let es = dhv(er, rs);
        let ck3 = kdf_ck(ck2, es);
        RespStep3 { ok: true, auth: h3, k_send: key_b(ck3), k_recv: key_a(ck3) }
    }
}

/// One side of a handshake.  Single use: once `Complete` or `Failed` is
/// reached, further `process` calls change nothing.
pub struct KeyExchanger {
    pub is_initiator: bool,
    pub stage: Stage,
    /// Handle of the ephemeral private scalar.
    pub e_h: usize,
    /// Handle of the static private scalar.
    pub s_h: usize,
    /// Transcript hash accumulated so far.
    pub h: u64,
    /// Chaining value of the key schedule.
    pub ck: u64,
    /// Responder only: handle of the message key awaited for message 3.
    pub k_h: usize,
    /// After completion: the transcript-hash value both sides agree on.
    pub auth: u64,
    /// After completion: handle of the sending-direction session key.
    pub k_send_h: usize,
    /// After completion: handle of the receiving-direction session key.
    pub k_recv_h: usize,
}

impl KeyExchanger {
    /// The exchanger's handles are live in `v` and all values are in range.
    pub open spec fn wf(&self, v: &Vault) -> bool {
        &&& v.live(self.e_h as int)
        &&& v.val(self.e_h as int) < KEY_BOUND
        &&& v.live(self.s_h as int)
        &&& v.val(self.s_h as int) < KEY_BOUND
        &&& self.h < MOD32
        &&& self.ck < MOD32
        &&& self.auth < MOD32
        &&& (self.stage is InitStart ==> self.h == H_INIT && self.ck == CK_INIT)
        &&& (self.stage is RespAwaitMsg1 ==> self.h == H_INIT && self.ck == CK_INIT)
        &&& (self.stage is RespAwaitMsg3 ==> v.live(self.k_h as int))
        &&& (self.stage is Complete ==> v.live(self.k_send_h as int)
            && v.live(self.k_recv_h as int))
    }

    /// Well-formedness only depends on the liveness and values of the
    /// exchanger's own handles, so it survives any vault extension.
    pub proof fn lemma_wf_extends(&self, v1: &Vault, v2: &Vault)
        requires
            self.wf(v1),
            Vault::extends(v1, v2),
        ensures
            self.wf(v2),
            self.e_val(v2) == self.e_val(v1),
            self.s_val(v2) == self.s_val(v1),
    {
    }

    /// Ephemeral scalar value in `v`.
    pub open spec fn e_val(&self, v: &Vault) -> u64 {
        v.val(self.e_h as int)
    }

    /// Static scalar value in `v`.
    pub open spec fn s_val(&self, v: &Vault) -> u64 {
        v.val(self.s_h as int)
    }

    /// A fresh initiator-side exchanger with newly drawn scalars.
    pub fn initiator(v: &mut Vault) -> (x: KeyExchanger)
        requires
            old(v).wf(),
        ensures
            final(v).wf(),
            Vault::extends(old(v), final(v)),
            x.wf(final(v)),
            x.stage is InitStart,
            x.is_initiator,
    {
        let e_h = v.generate_key();
        let s_h = v.generate_key();
        KeyExchanger {
            is_initiator: true,
            stage: Stage::InitStart,
            e_h,
            s_h,
            h: H_INIT,
            ck: CK_INIT,
            k_h: 0,
            auth: 0,
            k_send_h: 0,
            k_recv_h: 0,
        }
    }

    /// A fresh responder-side exchanger with newly drawn scalars.
    pub fn responder(v: &mut Vault) -> (x: KeyExchanger)
        requires
            old(v).wf(),
        ensures
            final(v).wf(),
            Vault::extends(old(v), final(v)),
            x.wf(final(v)),
            x.stage is RespAwaitMsg1,
            !x.is_initiator,
    {
        let e_h = v.generate_key();
        let s_h = v.generate_key();
        KeyExchanger {
            is_initiator: false,
            stage: Stage::RespAwaitMsg1,
            e_h,
            s_h,
            h: H_INIT,
            ck: CK_INIT,
            k_h: 0,
            auth: 0,
            k_send_h: 0,
            k_recv_h: 0,
        }
    }

    /// Emit message 1.  Initiator only, first call.
    fn step_init_start(&mut self, v: &mut Vault) -> (r: (Option<Vec<u8>>, Status))
        requires
            old(self).wf(old(v)),
            old(v).wf(),
            old(self).stage is InitStart,
        ensures
            final(v).wf(),
            Vault::extends(old(v), final(v)),
            final(self).wf(final(v)),
            final(self).is_initiator == old(self).is_initiator,
            final(self).e_h == old(self).e_h && final(self).s_h == old(self).s_h,
            ({
                let m1 = msg1_spec(old(self).e_val(old(v)));
                &&& r.0 is Some && r.0->Some_0@ == m1
                &&& r.1 is InProgress
                &&& final(self).stage is InitAwaitMsg2
                &&& final(self).h == h1_spec(m1)
            }),
    {
        let p = v.public_key(self.e_h);
        let mut m1: Vec<u8> = Vec::new();
        be64_append(&mut m1, p);
        proof {
            assert(m1@ =~= msg1_spec(self.e_val(v)));
        }
        self.h = mix_value(self.h, &m1);
        self.stage = Stage::InitAwaitMsg2;
        (Some(m1), Status::InProgress)
    }

    /// Validate message 1 and emit message 2.  Responder only.
    #[verifier::rlimit(100)]
    fn step_resp_msg1(&mut self, v: &mut Vault, incoming: &Vec<u8>) -> (r: (
        Option<Vec<u8>>,
        Status,
    ))
        requires
            old(self).wf(old(v)),
            old(v).wf(),
            old(self).stage is RespAwaitMsg1,
        ensures
            final(v).wf(),
            Vault::extends(old(v), final(v)),
            final(self).wf(final(v)),
            final(self).is_initiator == old(self).is_initiator,
            final(self).e_h == old(self).e_h && final(self).s_h == old(self).s_h,
            ({
                let st = resp_step1(old(self).e_val(old(v)), old(self).s_val(old(v)), incoming@);
                if st.ok {
                    &&& r.0 is Some && r.0->Some_0@ == st.msg2
                    &&& r.1 is InProgress
                    &&& final(self).stage is RespAwaitMsg3
                    &&& final(self).h == st.h2
                    &&& final(self).ck == st.ck2
                    &&& final(v).val(final(self).k_h as int) == st.k2
                } else {
                    r.0 is None && r.1 is Failed && final(self).stage is Failed
                }
            }),
    {
        if incoming.len() != 8 {
            self.stage = Stage::Failed;
            return (None, Status::Failed);
        }
        let re = de64_at(incoming, 0);
        proof {
            assert(incoming@.subrange(0, 8) =~= incoming@);
        }
        if re >= MOD32 {
            self.stage = Stage::Failed;
            return (None, Status::Failed);
        }
        let h1 = mix_value(self.h, incoming);
        let ep = v.public_key(self.e_h);
        let mut m2: Vec<u8> = Vec::new();
        be64_append(&mut m2, ep);
        proof {
            assert(m2@ =~= be64s(pubkey(self.e_val(v))));
        }
        let h2a = mix_value(h1, &m2);
        let ee_h = v.dh(self.e_h, re);
        let (ck1, k1_h) = v.kdf(CK_INIT, ee_h);
        let sp = v.public_key(self.s_h);
        let mut spb: Vec<u8> = Vec::new();
        be64_append(&mut spb, sp);
        proof {
            assert(spb@ =~= be64s(pubkey(self.s_val(v))));
        }
        let mut enc = v.aead_encrypt(k1_h, 0, &spb, h2a);
        let h2 = mix_value(h2a, &enc);
        let se_h = v.dh(self.s_h, re);
        let (ck2, k2_h) = v.kdf(ck1, se_h);
        let mut out = m2;
        out.append(&mut enc);
        self.h = h2;
        self.ck = ck2;
        self.k_h = k2_h;
        self.stage = Stage::RespAwaitMsg3;
        (Some(out), Status::InProgress)
    }

    /// Validate message 2, emit message 3, and finalize.  Initiator only.
    #[verifier::rlimit(100)]
    fn step_init_msg2(&mut self, v: &mut Vault, incoming: &Vec<u8>) -> (r: (
        Option<Vec<u8>>,
        Status,
    ))
        requires
            old(self).wf(old(v)),
            old(v).wf(),
            old(self).stage is InitAwaitMsg2,
        ensures
            final(v).wf(),
            Vault::extends(old(v), final(v)),
            final(self).wf(final(v)),
            final(self).is_initiator == old(self).is_initiator,
            final(self).e_h == old(self).e_h && final(self).s_h == old(self).s_h,
            ({
                let st = init_step2(
                    old(self).e_val(old(v)), old(self).s_val(old(v)), old(self).h, incoming@);
                if st.ok {
                    &&& r.0 is Some && r.0->Some_0@ == st.msg3
                    &&& r.1 is Completed
                    &&& final(self).stage is Complete
                    &&& final(self).auth == st.auth
                    &&& final(v).val(final(self).k_send_h as int) == st.k_send
                    &&& final(v).val(final(self).k_recv_h as int) == st.k_recv
                } else {
                    r.0 is None && r.1 is Failed && final(self).stage is Failed
                }
            }),
    {
        if incoming.len() != 24 {
            self.stage = Stage::Failed;
            return (None, Status::Failed);
        }
        let re = de64_at(incoming, 0);
        proof {
            assert(incoming@.subrange(0, 8) =~= incoming@.take(8));
        }
        if re >= MOD32 {
            self.stage = Stage::Failed;
            return (None, Status::Failed);
        }
        let pa = copy_range(incoming, 0, 8);
        proof {
            assert(pa@ =~= incoming@.take(8));
        }
        let h2a = mix_value(self.h, &pa);
        let ee_h = v.dh(self.e_h, re);
        let (ck1, k1_h) = v.kdf(CK_INIT, ee_h);
        let enc = copy_range(incoming, 8, 24);
        proof {
            assert(enc@ =~= incoming@.skip(8));
        }
        let dec = v.aead_decrypt(k1_h, 0, &enc, h2a);
        match dec {
            None => {
                self.stage = Stage::Failed;
                (None, Status::Failed)
            }
            Some(ptc) => {
                let rs = de64_at(&ptc, 0);
                proof {
                    assert(ptc@.subrange(0, 8) =~= ptc@);
                }
                let h2 = mix_value(h2a, &enc);
                let se_h = v.dh(self.e_h, rs);
                let (ck2, k2_h) = v.kdf(ck1, se_h);
                let sp = v.public_key(self.s_h);
                let mut spb: Vec<u8> = Vec::new();
                be64_append(&mut spb, sp);
                proof {
                    assert(spb@ =~= be64s(pubkey(self.s_val(v))));
                }
                let m3 = v.aead_encrypt(k2_h, 0, &spb, h2);
                let h3 = mix_value(h2, &m3);
                let es_h = v.dh(self.s_h, re);
                let (ck3, _k_last) = v.kdf(ck2, es_h);
                let (ka, kb) = v.split_keys(ck3);
                self.h = h3;
                self.auth = h3;
                self.k_send_h = ka;
                self.k_recv_h = kb;
                self.stage = Stage::Complete;
                (Some(m3), Status::Completed)
            }
        }
    }

    /// Validate message 3 and finalize.  Responder only.
    #[verifier::rlimit(100)]
    fn step_resp_msg3(&mut self, v: &mut Vault, incoming: &Vec<u8>) -> (r: (
        Option<Vec<u8>>,
        Status,
    ))
        requires
            old(self).wf(old(v)),
            old(v).wf(),
            old(self).stage is RespAwaitMsg3,
        ensures
            final(v).wf(),
            Vault::extends(old(v), final(v)),
            final(self).wf(final(v)),
            final(self).is_initiator == old(self).is_initiator,
            final(self).e_h == old(self).e_h && final(self).s_h == old(self).s_h,
            ({
                let st = resp_step3(
                    old(self).e_val(old(v)), old(self).h, old(self).ck,
                    old(v).val(old(self).k_h as int), incoming@);
                if st.ok {
                    &&& r.0 is None
                    &&& r.1 is Completed
                    &&& final(self).stage is Complete
                    &&& final(self).auth == st.auth
                    &&& final(v).val(final(self).k_send_h as int) == st.k_send
                    &&& final(v).val(final(self).k_recv_h as int) == st.k_recv
                } else {
                    r.0 is None && r.1 is Failed && final(self).stage is Failed
                }
            }),
    {
        if incoming.len() != 16 {
            self.stage = Stage::Failed;
            return (None, Status::Failed);
        }
        let dec = v.aead_decrypt(self.k_h, 0, incoming, self.h);
        match dec {
            None => {
                self.stage = Stage::Failed;
                (None, Status::Failed)
            }
            Some(ptc) => {
                let rs = de64_at(&ptc, 0);
                proof {
                    assert(ptc@.subrange(0, 8) =~= ptc@);
                }
                let h3 = mix_value(self.h, incoming);
                let es_h = v.dh(self.e_h, rs);
                let (ck3, _k_last) = v.kdf(self.ck, es_h);
                let (ka, kb) = v.split_keys(ck3);
                self.h = h3;
                self.auth = h3;
                self.k_send_h = kb;
                self.k_recv_h = ka;
                self.stage = Stage::Complete;
                (None, Status::Completed)
            }
        }
    }

    /// Feed one incoming handshake message (empty for the initiator's first
    /// call) and obtain the bytes to send onward, if any, and the status.
    pub fn process(&mut self, v: &mut Vault, incoming: &Vec<u8>) -> (r: (Option<Vec<u8>>, Status))
        requires
            old(self).wf(old(v)),
            old(v).wf(),
        ensures
            final(v).wf(),
            Vault::extends(old(v), final(v)),
            final(self).wf(final(v)),
            final(self).is_initiator == old(self).is_initiator,
            final(self).e_h == old(self).e_h && final(self).s_h == old(self).s_h,
            old(self).stage is InitStart ==> ({
                let m1 = msg1_spec(old(self).e_val(old(v)));
                &&& r.0 is Some && r.0->Some_0@ == m1
                &&& r.1 is InProgress
                &&& final(self).stage is InitAwaitMsg2
                &&& final(self).h == h1_spec(m1)
            }),
            old(self).stage is RespAwaitMsg1 ==> ({
                let st = resp_step1(old(self).e_val(old(v)), old(self).s_val(old(v)), incoming@);
                if st.ok {
                    &&& r.0 is Some && r.0->Some_0@ == st.msg2
                    &&& r.1 is InProgress
                    &&& final(self).stage is RespAwaitMsg3
                    &&& final(self).h == st.h2
                    &&& final(self).ck == st.ck2
                    &&& final(v).val(final(self).k_h as int) == st.k2
                } else {
                    r.0 is None && r.1 is Failed && final(self).stage is Failed
                }
            }),
            old(self).stage is InitAwaitMsg2 ==> ({
                let st = init_step2(
                    old(self).e_val(old(v)), old(self).s_val(old(v)), old(self).h, incoming@);
                if st.ok {
                    &&& r.0 is Some && r.0->Some_0@ == st.msg3
                    &&& r.1 is Completed
                    &&& final(self).stage is Complete
                    &&& final(self).auth == st.auth
                    &&& final(v).val(final(self).k_send_h as int) == st.k_send
                    &&& final(v).val(final(self).k_recv_h as int) == st.k_recv
                } else {
                    r.0 is None && r.1 is Failed && final(self).stage is Failed
                }
            }),
            old(self).stage is RespAwaitMsg3 ==> ({
                let st = resp_step3(
                    old(self).e_val(old(v)), old(self).h, old(self).ck,
                    old(v).val(old(self).k_h as int), incoming@);
                if st.ok {
                    &&& r.0 is None
                    &&& r.1 is Completed
                    &&& final(self).stage is Complete
                    &&& final(self).auth == st.auth
                    &&& final(v).val(final(self).k_send_h as int) == st.k_send
                    &&& final(v).val(final(self).k_recv_h as int) == st.k_recv
                } else {
                    r.0 is None && r.1 is Failed && final(self).stage is Failed
                }
            }),
            old(self).stage is Complete ==> r.0 is None && r.1 is Completed
                && *final(self) == *old(self),
            old(self).stage is Failed ==> r.0 is None && r.1 is Failed
                && *final(self) == *old(self),
    {
        match self.stage {
            Stage::InitStart => self.step_init_start(v),
            Stage::RespAwaitMsg1 => self.step_resp_msg1(v, incoming),
            Stage::InitAwaitMsg2 => self.step_init_msg2(v, incoming),
            Stage::RespAwaitMsg3 => self.step_resp_msg3(v, incoming),
            Stage::Complete => (None, Status::Completed),
            Stage::Failed => (None, Status::Failed),
        }
    }
}

} // verus!
