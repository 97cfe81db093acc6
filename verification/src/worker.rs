//! The per-session channel worker: drives one handshake to completion, then
//! relays application traffic under authenticated encryption.
//!
//! A worker owns two addresses: `addr_local` faces the application and
//! carries plaintext; `addr_remote` faces the network route and carries
//! handshake and ciphertext traffic.  Once `Established` is reached the
//! worker never re-enters `Handshaking`; a frame that fails authentication
//! or replays a nonce is dropped without touching the session state.
use vstd::prelude::*;
use crate::crypto::{MOD32, MAX_PT};
use crate::codec::{de64s, be64s, auth32, be64_append, de64_at, auth_hash_bytes};
use crate::vault::{Vault, enc_frame, dec_frame, copy_range};
use crate::exchanger::{KeyExchanger, Stage, Status, msg1_spec, h1_spec, resp_step1,
    init_step2, resp_step3};

verus! {

/// An endpoint identifier inside the routing domain: a mailbox selector,
/// not a network address.
#[derive(Clone, Copy, PartialEq, Eq, Structural, Debug, Hash)]
pub struct Address {
    pub id: u64,
}

/// The ordered hop path a message traverses to reach a peer endpoint.
#[derive(Clone, Debug)]
pub struct Route {
    pub hops: Vec<Address>,
}

/// Error kinds surfaced by the channel engine.
#[derive(Clone, Copy, PartialEq, Eq, Structural, Debug)]
pub enum ChannelError {
    /// The liveness bound elapsed while awaiting handshake completion.
    HandshakeTimeout,
    /// A handshake message failed cryptographic validation.  The engine
    /// reports this fault through the worker's `Failed` state rather than a
    /// synchronous return: the session that saw it is abandoned, and only
    /// the creating caller's timeout is observable from outside.
    HandshakeFailed,
    /// A malformed or out-of-window post-handshake message.
    ProtocolViolation,
    /// A key operation could not be performed (for instance, the nonce
    /// space of a direction is exhausted).
    VaultError,
    /// An address in the route could not be resolved.
    RoutingError,
}

/// Lifecycle of a worker.
#[derive(Clone, Copy, PartialEq, Eq, Structural, Debug)]
pub enum WorkerState {
    Handshaking,
    Established,
    Failed,
    Closed,
}

/// What one message delivery produced.
pub struct WorkerOutput {
    /// Bytes to forward along the worker's stored route.
    pub to_route: Option<Vec<u8>>,
    /// Decrypted plaintext to hand to the application side.
    pub to_local: Option<Vec<u8>>,
    /// The 32-byte authentication value, emitted exactly once on the
    /// transition into `Established`.
    pub completion: Option<Vec<u8>>,
}

/// One endpoint of a secure channel.
pub struct SecureChannelWorker {
    pub is_initiator: bool,
    pub route: Route,
    pub addr_local: Address,
    pub addr_remote: Address,
    pub state: WorkerState,
    pub ex: KeyExchanger,
    /// Established only: handle of the sending-direction session key.
    pub k_send_h: usize,
    /// Established only: handle of the receiving-direction session key.
    pub k_recv_h: usize,
    /// Nonce of the next outgoing frame; strictly increasing.
    pub send_nonce: u64,
    /// Highest nonce accepted so far; incoming frames must exceed it.
    pub recv_max: u64,
    /// Established only: the 32-byte transcript authentication value.
    pub auth: Vec<u8>,
}

impl SecureChannelWorker {
    /// Handles live in `v`, counters in range, auth value well formed.
    pub open spec fn wf(&self, v: &Vault) -> bool {
        &&& (self.state is Handshaking ==> self.ex.wf(v) && !(self.ex.stage is Complete)
            && !(self.ex.stage is Failed))
        &&& (self.state is Established ==> v.live(self.k_send_h as int)
            && v.live(self.k_recv_h as int) && self.auth@.len() == 32
            && self.auth@ == auth32(self.ex.auth))
        &&& self.send_nonce < MOD32
        &&& self.recv_max < MOD32
        &&& 1 <= self.send_nonce
    }

    /// Well-formedness only depends on the liveness of the worker's own
    /// handles, so it survives any vault extension.
    pub proof fn lemma_wf_extends(&self, v1: &Vault, v2: &Vault)
        requires
            self.wf(v1),
            Vault::extends(v1, v2),
        ensures
            self.wf(v2),
    {
        if self.state is Handshaking {
            self.ex.lemma_wf_extends(v1, v2);
        }
    }

    /// A new worker about to run the handshake with the given exchanger.
    pub fn new(
        is_initiator: bool,
        route: Route,
        addr_remote: Address,
        addr_local: Address,
        ex: KeyExchanger,
        v: &Vault,
    ) -> (w: SecureChannelWorker)
        requires
            ex.wf(v),
            !(ex.stage is Complete),
            !(ex.stage is Failed),
        ensures
            w.wf(v),
            w.state is Handshaking,
            w.is_initiator == is_initiator,
            w.addr_remote == addr_remote,
            w.addr_local == addr_local,
            w.ex == ex,
            w.route == route,
    {
        SecureChannelWorker {
            is_initiator,
            route,
            addr_local,
            addr_remote,
            state: WorkerState::Handshaking,
            ex,
            k_send_h: 0,
            k_recv_h: 0,
            send_nonce: 1,
            recv_max: 0,
            auth: Vec::new(),
        }
    }

    /// Feed a message that arrived at the remote (network-facing) address.
    ///
    /// While handshaking this advances the key exchange; a validation
    /// failure moves the worker to `Failed` and the session is abandoned.
    /// Once established, a frame is opened under the receive key: a frame
    /// whose nonce does not exceed every nonce accepted so far, or whose
    /// authenticator does not match, is dropped with no state change.
    pub fn handle_remote(&mut self, v: &mut Vault, bytes: &Vec<u8>) -> (out: WorkerOutput)
        requires
            old(self).wf(old(v)),
            old(v).wf(),
            bytes@.len() <= MAX_PT + 16,
        ensures
            final(v).wf(),
            Vault::extends(old(v), final(v)),
            final(self).wf(final(v)),
            final(self).is_initiator == old(self).is_initiator,
            final(self).addr_local == old(self).addr_local,
            final(self).addr_remote == old(self).addr_remote,
            final(self).route == old(self).route,
            final(self).state is Handshaking ==> old(self).state is Handshaking,
            out.completion is Some <==> (old(self).state is Handshaking
                && final(self).state is Established),
            old(self).state is Handshaking ==> ({
                &&& out.to_local is None
                &&& (final(self).state is Established || final(self).state is Handshaking
                    || final(self).state is Failed)
                &&& (final(self).state is Established ==> {
                    &&& final(self).auth@ == auth32(final(self).ex.auth)
                    &&& out.completion is Some
                    &&& out.completion->Some_0@ == auth32(final(self).ex.auth)
                    &&& final(self).auth@.len() == 32
                })
            }),
            // The relayed bytes and the session outcome are exactly what the
            // key exchanger's model prescribes for the delivered message.
            old(self).state is Handshaking && old(self).ex.stage is InitStart ==> ({
                let m1 = msg1_spec(old(self).ex.e_val(old(v)));
                &&& out.to_route is Some && out.to_route->Some_0@ == m1
                &&& final(self).state is Handshaking
                &&& final(self).ex.h == h1_spec(m1)
            }),
            old(self).state is Handshaking && old(self).ex.stage is RespAwaitMsg1 ==> ({
                let st = resp_step1(
                    old(self).ex.e_val(old(v)), old(self).ex.s_val(old(v)), bytes@);
                if st.ok {
                    &&& out.to_route is Some && out.to_route->Some_0@ == st.msg2
                    &&& final(self).state is Handshaking
                    &&& final(self).ex.h == st.h2
                } else {
                    out.to_route is None && final(self).state is Failed
                }
            }),
            old(self).state is Handshaking && old(self).ex.stage is InitAwaitMsg2 ==> ({
                let st = init_step2(
                    old(self).ex.e_val(old(v)), old(self).ex.s_val(old(v)),
                    old(self).ex.h, bytes@);
                if st.ok {
                    &&& out.to_route is Some && out.to_route->Some_0@ == st.msg3
                    &&& final(self).state is Established
                    &&& final(self).ex.auth == st.auth
                    &&& final(v).val(final(self).k_send_h as int) == st.k_send
                    &&& final(v).val(final(self).k_recv_h as int) == st.k_recv
                } else {
                    out.to_route is None && final(self).state is Failed
                }
            }),
            old(self).state is Handshaking && old(self).ex.stage is RespAwaitMsg3 ==> ({
                let st = resp_step3(
                    old(self).ex.e_val(old(v)), old(self).ex.h, old(self).ex.ck,
                    old(v).val(old(self).ex.k_h as int), bytes@);
                if st.ok {
                    &&& out.to_route is None
                    &&& final(self).state is Established
                    &&& final(self).ex.auth == st.auth
                    &&& final(v).val(final(self).k_send_h as int) == st.k_send
                    &&& final(v).val(final(self).k_recv_h as int) == st.k_recv
                } else {
                    out.to_route is None && final(self).state is Failed
                }
            }),
            old(self).state is Established ==> ({
                let k = old(v).val(old(self).k_recv_h as int);
                &&& out.to_route is None
                &&& final(self).state is Established
                &&& final(self).k_send_h == old(self).k_send_h
                &&& final(self).k_recv_h == old(self).k_recv_h
                &&& final(self).send_nonce == old(self).send_nonce
                &&& final(self).auth == old(self).auth
                &&& final(self).ex == old(self).ex
                &&& if bytes@.len() < 8 || de64s(bytes@.take(8)) >= MOD32
                    || de64s(bytes@.take(8)) <= old(self).recv_max {
                    &&& out.to_local is None
                    &&& final(self).recv_max == old(self).recv_max
                } else {
                    let n = de64s(bytes@.take(8)) as u64;
                    match dec_frame(k, n, 0, bytes@.skip(8)) {
                        Some(p) => {
                            &&& out.to_local is Some
                            &&& out.to_local->Some_0@ == p
                            &&& final(self).recv_max == n
                        },
                        None => {
                            &&& out.to_local is None
                            &&& final(self).recv_max == old(self).recv_max
                        },
                    }
                }
            }),
            (old(self).state is Failed || old(self).state is Closed) ==> ({
                &&& out.to_route is None
                &&& out.to_local is None
                &&& *final(self) == *old(self)
            }),
    {
        match self.state {
            WorkerState::Handshaking => {
                let (to_send, status) = self.ex.process(v, bytes);
                match status {
                    Status::InProgress => {
                        WorkerOutput { to_route: to_send, to_local: None, completion: None }
                    }
                    Status::Completed => {
                        self.state = WorkerState::Established;
                        self.k_send_h = self.ex.k_send_h;
                        self.k_recv_h = self.ex.k_recv_h;
                        self.auth = auth_hash_bytes(self.ex.auth);
                        let done = auth_hash_bytes(self.ex.auth);
                        WorkerOutput {
                            to_route: to_send,
                            to_local: None,
                            completion: Some(done),
                        }
                    }
                    Status::Failed => {
                        self.state = WorkerState::Failed;
                        WorkerOutput { to_route: None, to_local: None, completion: None }
                    }
                }
            }
            WorkerState::Established => {
                if bytes.len() < 8 {
                    return WorkerOutput { to_route: None, to_local: None, completion: None };
                }
                let n = de64_at(bytes, 0);
                proof {
                    assert(bytes@.subrange(0, 8) =~= bytes@.take(8));
                }
                if n >= MOD32 || n <= self.recv_max {
                    return WorkerOutput { to_route: None, to_local: None, completion: None };
                }
                let body = copy_range(bytes, 8, bytes.len());
                proof {
                    assert(body@ =~= bytes@.skip(8));
                }
                let dec = v.aead_decrypt(self.k_recv_h, n, &body, 0);
                match dec {
                    Some(p) => {
                        self.recv_max = n;
                        WorkerOutput { to_route: None, to_local: Some(p), completion: None }
                    }
                    None => WorkerOutput { to_route: None, to_local: None, completion: None },
                }
            }
            WorkerState::Failed => WorkerOutput {
                to_route: None,
                to_local: None,
                completion: None,
            },
            WorkerState::Closed => WorkerOutput {
                to_route: None,
                to_local: None,
                completion: None,
            },
        }
    }

    /// Seal an application plaintext that arrived at the local address into
    /// an outgoing frame: the nonce in the clear, then ciphertext and
    /// authenticator.
    pub fn handle_local(&mut self, v: &Vault, pt: &Vec<u8>) -> (r: Result<
        Vec<u8>,
        ChannelError,
    >)
        requires
            old(self).wf(v),
            v.wf(),
            pt@.len() <= MAX_PT,
        ensures
            final(self).wf(v),
            final(self).state == old(self).state,
            final(self).recv_max == old(self).recv_max,
            final(self).addr_local == old(self).addr_local,
            final(self).addr_remote == old(self).addr_remote,
            final(self).route == old(self).route,
            final(self).auth == old(self).auth,
            final(self).ex == old(self).ex,
            final(self).is_initiator == old(self).is_initiator,
            final(self).k_send_h == old(self).k_send_h,
            final(self).k_recv_h == old(self).k_recv_h,
            old(self).state is Established && old(self).send_nonce < MOD32 - 1 ==> ({
                let n = old(self).send_nonce;
                let k = v.val(old(self).k_send_h as int);
                &&& r is Ok
                &&& r->Ok_0@ == be64s(n) + enc_frame(k, n, 0, pt@)
                &&& final(self).send_nonce == n + 1
            }),
            !(old(self).state is Established) ==> r == Result::<Vec<u8>, ChannelError>::Err(
                ChannelError::ProtocolViolation,
            ) && *final(self) == *old(self),
            old(self).state is Established && old(self).send_nonce >= MOD32 - 1
                ==> r == Result::<Vec<u8>, ChannelError>::Err(ChannelError::VaultError)
                && *final(self) == *old(self),
    {
        match self.state {
            WorkerState::Established => {
                if self.send_nonce >= MOD32 - 1 {
                    return Err(ChannelError::VaultError);
                }
                let n = self.send_nonce;
                let mut frame: Vec<u8> = Vec::new();
                be64_append(&mut frame, n);
                let mut sealed = v.aead_encrypt(self.k_send_h, n, pt, 0);
                frame.append(&mut sealed);
                self.send_nonce = n + 1;
                proof {
                    assert(frame@ =~= be64s(n) + enc_frame(v.val(self.k_send_h as int), n, 0,
                        pt@));
                }
                Ok(frame)
            }
            _ => Err(ChannelError::ProtocolViolation),
        }
    }

    /// Explicit teardown: release the session keys and refuse all further
    /// traffic.  Safe in any state.
    pub fn close(&mut self, v: &mut Vault)
        requires
            old(v).wf(),
        ensures
            final(v).wf(),
            final(self).state is Closed,
            final(self).addr_local == old(self).addr_local,
            final(self).addr_remote == old(self).addr_remote,
            final(self).is_initiator == old(self).is_initiator,
            final(self).ex == old(self).ex,
            final(self).auth == old(self).auth,
            !final(v).live(old(self).ex.e_h as int),
            !final(v).live(old(self).ex.s_h as int),
            !final(v).live(old(self).ex.k_h as int),
            !final(v).live(old(self).k_send_h as int),
            !final(v).live(old(self).k_recv_h as int),
            forall|t: int| old(v).live(t) && t != old(self).ex.e_h && t != old(self).ex.s_h
                && t != old(self).ex.k_h && t != old(self).k_send_h
                && t != old(self).k_recv_h ==> final(v).live(t)
                && final(v).val(t) == old(v).val(t),
    {
        v.release(self.ex.e_h);
        v.release(self.ex.s_h);
        v.release(self.ex.k_h);
        v.release(self.k_send_h);
        v.release(self.k_recv_h);
        self.state = WorkerState::Closed;
    }
}

} // verus!
