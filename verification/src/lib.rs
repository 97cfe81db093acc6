//! Mutually authenticated, encrypted channels over an in-process message
//! route.
//!
//! The engine drives a three-message mutually authenticated Diffie-Hellman
//! handshake between a per-session worker pair, derives a transcript-binding
//! authentication value, and thereafter relays application payloads under
//! authenticated encryption.  All key material lives behind the vault's
//! handle boundary; the protocol itself is specified by the spec functions
//! in `exchanger` and proved in `laws`.
use vstd::prelude::*;

pub mod crypto;
pub mod codec;
pub mod vault;
pub mod exchanger;
pub mod laws;
pub mod worker;
pub mod node;
pub mod policy;

verus! {

use crate::crypto::MAX_PT;
use crate::exchanger::KeyExchanger;
use crate::worker::{Address, Route, ChannelError, SecureChannelWorker};
use crate::node::{Node, Envelope};

/// How many delivery steps the initiating call waits for the completion
/// event before giving up.
pub const HANDSHAKE_TIMEOUT: u64 = 120;

/// The immutable result handle returned to the initiating caller: the
/// channel's application-facing address and the transcript authentication
/// value, usable for out-of-band peer verification.
#[derive(Clone, PartialEq, Debug)]
pub struct SecureChannelInfo {
    worker_address: Address,
    auth_hash: Vec<u8>,
}

impl SecureChannelInfo {
    /// The application-facing address.
    pub closed spec fn addr_spec(&self) -> Address {
        self.worker_address
    }

    /// The authentication value.
    pub closed spec fn auth_spec(&self) -> Seq<u8> {
        self.auth_hash@
    }

    /// The authentication value is always exactly 32 bytes.
    pub open spec fn wf(&self) -> bool {
        self.auth_spec().len() == 32
    }

    /// Return the worker's application-facing address.
    pub fn address(&self) -> (r: Address)
        ensures
            r == self.addr_spec(),
    {
        self.worker_address
    }

    /// Return the auth hash.
    pub fn auth_hash(&self) -> (r: Vec<u8>)
        ensures
            r@ == self.auth_spec(),
    {
        self.auth_hash.clone()
    }
}

/// Argument of the command that makes a named node the default one.  The
/// command's execution (looking the node up and persisting the choice) lives
/// with the configuration store outside this library.
#[derive(Clone, Debug)]
pub struct SetDefaultNodeCommand {
    /// Name of the Node.
    pub name: String,
}

/// Secure channel entry points.
pub struct SecureChannel {}

impl SecureChannel {
    /// Create and start a channel listener at the given well-known address,
    /// using the default handshake pattern and the node's software vault.
    pub fn create_listener(node: &mut Node, address: Address) -> (r: Result<(), ChannelError>)
        requires
            old(node).wf(),
        ensures
            final(node).wf(),
            r is Ok ==> !old(node).id_used(address.id)
                && final(node).listeners@ == old(node).listeners@.push(address),
            r is Err ==> r->Err_0 is RoutingError && *final(node) == *old(node)
                && (old(node).id_used(address.id) || address.id == u64::MAX),
    {
        Self::create_listener_extended(node, address)
    }

    /// Create and start a channel listener at the given address.  Each first
    /// contact from a new peer spawns a fresh responder-role worker; the
    /// listener itself keeps no per-session state.
    pub fn create_listener_extended(node: &mut Node, address: Address) -> (r: Result<
        (),
        ChannelError,
    >)
        requires
            old(node).wf(),
        ensures
            final(node).wf(),
            r is Ok ==> !old(node).id_used(address.id)
                && final(node).listeners@ == old(node).listeners@.push(address),
            r is Err ==> r->Err_0 is RoutingError && *final(node) == *old(node)
                && (old(node).id_used(address.id) || address.id == u64::MAX),
    {
        node.register_listener(address)
    }

    /// Create an initiator channel over `route` using the default handshake
    /// pattern and the node's software vault, and wait (bounded) for it to
    /// be established.
    pub fn create(node: &mut Node, route: Route) -> (r: Result<SecureChannelInfo, ChannelError>)
        requires
            old(node).wf(),
        ensures
            final(node).wf(),
            r is Err ==> r->Err_0 is HandshakeTimeout || r->Err_0 is RoutingError,
            // On success the result is well formed: a 32-byte authentication
            // value at a local address fresh on this node.
            r is Ok ==> r->Ok_0.wf() && !old(node).id_used(r->Ok_0.addr_spec().id)
                && final(node).id_used(r->Ok_0.addr_spec().id),
            // The returned hash is exactly the transcript authentication
            // value of a settled worker registered at the returned address:
            // the consumed completion event ties the two together.
            r is Ok ==> exists|j: int| 0 <= j < final(node).workers@.len()
                && (#[trigger] final(node).workers@[j]).addr_local == r->Ok_0.addr_spec()
                && !(final(node).workers@[j].state is Handshaking)
                && r->Ok_0.auth_spec()
                    == crate::codec::auth32(final(node).workers@[j].ex.auth),
            // The channel's worker is registered under the allocated pair:
            // local and remote distinct, both fresh on this node.
            r is Ok ==> exists|j: int| 0 <= j < final(node).workers@.len()
                && (#[trigger] final(node).workers@[j]).is_initiator
                && final(node).workers@[j].addr_local == r->Ok_0.addr_spec()
                && final(node).workers@[j].addr_remote.id != r->Ok_0.addr_spec().id
                && !old(node).id_used(final(node).workers@[j].addr_remote.id),
            // A timeout abandons only the caller's wait: the worker stays
            // registered under its fresh, distinct address pair.
            r == Result::<SecureChannelInfo, ChannelError>::Err(ChannelError::HandshakeTimeout)
                ==> exists|j: int| 0 <= j < final(node).workers@.len()
                && (#[trigger] final(node).workers@[j]).is_initiator
                && !old(node).id_used(final(node).workers@[j].addr_local.id)
                && !old(node).id_used(final(node).workers@[j].addr_remote.id)
                && final(node).workers@[j].addr_local.id
                    != final(node).workers@[j].addr_remote.id,
            // A routing failure names its cause: an empty route, an
            // unresolvable target, or an exhausted address space.
            r == Result::<SecureChannelInfo, ChannelError>::Err(ChannelError::RoutingError)
                ==> route.hops@.len() == 0 || !old(node).resolvable(route.hops@[0])
                || old(node).next_serial >= u64::MAX - 1,
    {
        let ex = KeyExchanger::initiator(&mut node.vault);
        proof {
            Self::lemma_node_vault_extended(old(node), node);
        }
        Self::create_extended(node, route, None, ex)
    }

    /// Create an initiator channel with a pre-generated key exchanger.  The
    /// worker is registered under a freshly allocated local/remote address
    /// pair and the calling path waits up to `HANDSHAKE_TIMEOUT` delivery
    /// steps for the completion event; on expiry the call fails with
    /// `HandshakeTimeout` while the worker is left running.
    pub fn create_extended(
        node: &mut Node,
        route: Route,
        first_responder_address: Option<Address>,
        key_exchanger: KeyExchanger,
    ) -> (r: Result<SecureChannelInfo, ChannelError>)
        requires
            old(node).wf(),
            key_exchanger.wf(&old(node).vault),
            key_exchanger.stage is InitStart,
        ensures
            final(node).wf(),
            r is Err ==> r->Err_0 is HandshakeTimeout || r->Err_0 is RoutingError,
            // On success the result is well formed: a 32-byte authentication
            // value at a local address fresh on this node.
            r is Ok ==> r->Ok_0.wf() && !old(node).id_used(r->Ok_0.addr_spec().id)
                && final(node).id_used(r->Ok_0.addr_spec().id),
            // The returned hash is exactly the transcript authentication
            // value of a settled worker registered at the returned address:
            // the consumed completion event ties the two together.
            r is Ok ==> exists|j: int| 0 <= j < final(node).workers@.len()
                && (#[trigger] final(node).workers@[j]).addr_local == r->Ok_0.addr_spec()
                && !(final(node).workers@[j].state is Handshaking)
                && r->Ok_0.auth_spec()
                    == crate::codec::auth32(final(node).workers@[j].ex.auth),
            // The channel's worker is registered under the allocated pair:
            // local and remote distinct, both fresh on this node.
            r is Ok ==> exists|j: int| 0 <= j < final(node).workers@.len()
                && (#[trigger] final(node).workers@[j]).is_initiator
                && final(node).workers@[j].addr_local == r->Ok_0.addr_spec()
                && final(node).workers@[j].addr_remote.id != r->Ok_0.addr_spec().id
                && !old(node).id_used(final(node).workers@[j].addr_remote.id),
            // A timeout abandons only the caller's wait: the worker stays
            // registered under its fresh, distinct address pair.
            r == Result::<SecureChannelInfo, ChannelError>::Err(ChannelError::HandshakeTimeout)
                ==> exists|j: int| 0 <= j < final(node).workers@.len()
                && (#[trigger] final(node).workers@[j]).is_initiator
                && !old(node).id_used(final(node).workers@[j].addr_local.id)
                && !old(node).id_used(final(node).workers@[j].addr_remote.id)
                && final(node).workers@[j].addr_local.id
                    != final(node).workers@[j].addr_remote.id,
            // A routing failure names its cause: an empty route, an
            // unresolvable target, or an exhausted address space.
            r == Result::<SecureChannelInfo, ChannelError>::Err(ChannelError::RoutingError)
                ==> (first_responder_address is None && route.hops@.len() == 0)
                || ({
                    let target = if first_responder_address is Some {
                        first_responder_address->Some_0
                    } else {
                        route.hops@[0]
                    };
                    !old(node).resolvable(target)
                })
                || old(node).next_serial >= u64::MAX - 1,
    {
        let target = match first_responder_address {
            Some(a) => a,
            None => {
                if route.hops.len() == 0 {
                    return Err(ChannelError::RoutingError);
                }
                route.hops[0]
            }
        };
        if !node.resolves(target) {
            return Err(ChannelError::RoutingError);
        }
        let pair = match node.alloc_pair() {
            Ok(p) => p,
            Err(_) => {
                return Err(ChannelError::RoutingError);
            }
        };
        let (la, ra) = pair;
        let mut w = SecureChannelWorker::new(true, route, ra, la, key_exchanger, &node.vault);
        let empty: Vec<u8> = Vec::new();
        let ghost pre_vault = node.vault;
        let out = w.handle_remote(&mut node.vault, &empty);
        proof {
            assert forall|i: int| 0 <= i < node.workers@.len()
                implies (#[trigger] node.workers@[i]).wf(&node.vault) by {
                node.workers@[i].lemma_wf_extends(&pre_vault, &node.vault);
            }
            crate::node::lemma_witnessed_push_worker(node.workers@, w, node.completions@);
        }
        let ghost wi = node.workers@.len() as int;
        node.workers.push(w);
        match out.to_route {
            Some(b) => {
                if b.len() <= MAX_PT + 16 {
                    node.queue.push(Envelope { dest: target, reply: ra, payload: b });
                }
            }
            None => {}
        }
        let mut t: u64 = 0;
        while t < HANDSHAKE_TIMEOUT
            invariant
                node.wf(),
                old(node).wf(),
                t <= HANDSHAKE_TIMEOUT,
                !old(node).id_used(la.id),
                !old(node).id_used(ra.id),
                la.id != ra.id,
                node.id_used(la.id),
                0 <= wi < node.workers@.len(),
                node.workers@[wi].addr_local == la,
                node.workers@[wi].addr_remote == ra,
                node.workers@[wi].is_initiator,
            decreases HANDSHAKE_TIMEOUT - t,
        {
            match node.take_completion(la) {
                Some(c) => {
                    return Ok(SecureChannelInfo { worker_address: la, auth_hash: c });
                }
                None => {}
            }
            node.step();
            t = t + 1;
        }
        match node.take_completion(la) {
            Some(c) => Ok(SecureChannelInfo { worker_address: la, auth_hash: c }),
            None => Err(ChannelError::HandshakeTimeout),
        }
    }

    /// Drawing keys only extends the vault, so the node invariant survives.
    proof fn lemma_node_vault_extended(pre: &Node, post: &Node)
        requires
            pre.wf(),
            post.vault.wf(),
            crate::vault::Vault::extends(&pre.vault, &post.vault),
            post.workers == pre.workers,
            post.queue == pre.queue,
            post.completions == pre.completions,
            post.used == pre.used,
            post.next_serial == pre.next_serial,
        ensures
            post.wf(),
    {
        assert forall|i: int| 0 <= i < post.workers@.len()
            implies (#[trigger] post.workers@[i]).wf(&post.vault) by {
            pre.workers@[i].lemma_wf_extends(&pre.vault, &post.vault);
        }
    }
}

} // verus!
