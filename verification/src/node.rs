//! A deterministic in-process routing substrate: mailboxes, delivery in
//! order, and the address registry.
//!
//! Each worker and each listener is addressed by a mailbox selector; a
//! message queued for an address is handed to its owner one delivery at a
//! time, which matches the cooperative single-mailbox scheduling the engine
//! is written for.  The registry hands out address pairs that are distinct
//! from each other and from every address ever allocated on this node.
use vstd::prelude::*;
use crate::crypto::MAX_PT;
use crate::vault::Vault;
use crate::exchanger::KeyExchanger;
use crate::worker::{Address, Route, ChannelError, SecureChannelWorker, WorkerState};

verus! {

/// First identifier handed out by the sequential fallback of the allocator.
pub const SERIAL_BASE: u64 = 4611686018427387904;

/// One queued delivery: destination mailbox, the sender's reply mailbox, and
/// the payload bytes.
pub struct Envelope {
    pub dest: Address,
    pub reply: Address,
    pub payload: Vec<u8>,
}

/// The in-process node: one shared vault, the live workers and listeners,
/// the delivery queue, and the address registry.
pub struct Node {
    pub vault: Vault,
    pub workers: Vec<SecureChannelWorker>,
    pub listeners: Vec<Address>,
    pub queue: Vec<Envelope>,
    /// Completion events not yet consumed: (local address, 32-byte auth).
    pub completions: Vec<(Address, Vec<u8>)>,
    /// Plaintext handed to application sides: (local address, bytes).
    pub delivered: Vec<(Address, Vec<u8>)>,
    /// Every address identifier ever allocated or registered.
    pub used: Vec<u64>,
    /// Next identifier of the sequential allocation fallback.
    pub next_serial: u64,
}

/// A completion entry is backed by a settled worker that owns the entry's
/// local address and whose transcript value the entry carries.
pub open spec fn completion_entry_ok(
    workers: Seq<SecureChannelWorker>,
    e: (Address, Vec<u8>),
) -> bool {
    exists|j: int| 0 <= j < workers.len() && (#[trigger] workers[j]).addr_local == e.0
        && !(workers[j].state is Handshaking)
        && e.1@ == crate::codec::auth32(workers[j].ex.auth)
}

/// Every pending completion event is backed by such a worker.
pub open spec fn completions_witnessed(
    workers: Seq<SecureChannelWorker>,
    completions: Seq<(Address, Vec<u8>)>,
) -> bool {
    forall|i: int| 0 <= i < completions.len()
        ==> completion_entry_ok(workers, #[trigger] completions[i])
}

/// Appending a worker keeps every completion witnessed.
pub proof fn lemma_witnessed_push_worker(
    workers: Seq<SecureChannelWorker>,
    w: SecureChannelWorker,
    completions: Seq<(Address, Vec<u8>)>,
)
    requires
        completions_witnessed(workers, completions),
    ensures
        completions_witnessed(workers.push(w), completions),
{
    assert forall|i: int| 0 <= i < completions.len()
        implies completion_entry_ok(workers.push(w), #[trigger] completions[i]) by {
        assert(completion_entry_ok(workers, completions[i]));
        let j = choose|j: int| 0 <= j < workers.len()
            && (#[trigger] workers[j]).addr_local == completions[i].0
            && !(workers[j].state is Handshaking)
            && completions[i].1@ == crate::codec::auth32(workers[j].ex.auth);
        assert(workers.push(w)[j] == workers[j]);
    }
}

/// Replacing the worker at one index keeps every completion witnessed, as
/// long as the replacement keeps its local address and, unless it was still
/// handshaking, its settled transcript state.
pub proof fn lemma_witnessed_update_worker(
    workers: Seq<SecureChannelWorker>,
    idx: int,
    w: SecureChannelWorker,
    completions: Seq<(Address, Vec<u8>)>,
)
    requires
        completions_witnessed(workers, completions),
        0 <= idx < workers.len(),
        w.addr_local == workers[idx].addr_local,
        !(workers[idx].state is Handshaking) ==> !(w.state is Handshaking)
            && w.ex == workers[idx].ex,
    ensures
        completions_witnessed(workers.update(idx, w), completions),
{
    let post = workers.update(idx, w);
    assert forall|i: int| 0 <= i < completions.len()
        implies completion_entry_ok(post, #[trigger] completions[i]) by {
        assert(completion_entry_ok(workers, completions[i]));
        let j = choose|j: int| 0 <= j < workers.len()
            && (#[trigger] workers[j]).addr_local == completions[i].0
            && !(workers[j].state is Handshaking)
            && completions[i].1@ == crate::codec::auth32(workers[j].ex.auth);
        if j == idx {
            assert(post[j] == w);
        } else {
            assert(post[j] == workers[j]);
        }
    }
}

/// A new completion entry backed by the worker at `j` keeps the whole list
/// witnessed.
pub proof fn lemma_witnessed_push_completion(
    workers: Seq<SecureChannelWorker>,
    completions: Seq<(Address, Vec<u8>)>,
    j: int,
    e: (Address, Vec<u8>),
)
    requires
        completions_witnessed(workers, completions),
        0 <= j < workers.len(),
        workers[j].addr_local == e.0,
        !(workers[j].state is Handshaking),
        e.1@ == crate::codec::auth32(workers[j].ex.auth),
    ensures
        completions_witnessed(workers, completions.push(e)),
{
    assert forall|i: int| 0 <= i < completions.push(e).len()
        implies completion_entry_ok(workers, #[trigger] completions.push(e)[i]) by {
        if i < completions.len() {
            assert(completions.push(e)[i] == completions[i]);
            assert(completion_entry_ok(workers, completions[i]));
        } else {
            assert(completions.push(e)[i] == e);
        }
    }
}

/// Consuming one completion entry keeps the rest witnessed.
pub proof fn lemma_witnessed_remove(
    workers: Seq<SecureChannelWorker>,
    completions: Seq<(Address, Vec<u8>)>,
    i: int,
)
    requires
        completions_witnessed(workers, completions),
        0 <= i < completions.len(),
    ensures
        completions_witnessed(workers, completions.remove(i)),
{
    let post = completions.remove(i);
    assert forall|t: int| 0 <= t < post.len()
        implies completion_entry_ok(workers, #[trigger] post[t]) by {
        if t < i {
            assert(post[t] == completions[t]);
            assert(completion_entry_ok(workers, completions[t]));
        } else {
            assert(post[t] == completions[t + 1]);
            assert(completion_entry_ok(workers, completions[t + 1]));
        }
    }
}

/// Identifiers present in a registry stay present in any positional
/// extension of it.
pub proof fn lemma_id_monotone(pre: Seq<u64>, post: Seq<u64>)
    requires
        pre.len() <= post.len(),
        forall|i: int| 0 <= i < pre.len() ==> post[i] == pre[i],
    ensures
        forall|id: u64| pre.contains(id) ==> post.contains(id),
{
    assert forall|id: u64| pre.contains(id) implies post.contains(id) by {
        let t = choose|t: int| 0 <= t < pre.len() && pre[t] == id;
        assert(post[t] == id);
    }
}

impl Node {
    /// The node's invariant: the vault is well formed, every worker is well
    /// formed in it, every queued payload fits a frame, every recorded
    /// completion carries a 32-byte value, and the registry dominates the
    /// serial counter.
    pub open spec fn wf(&self) -> bool {
        &&& self.vault.wf()
        &&& forall|i: int| 0 <= i < self.workers@.len() ==> (#[trigger] self.workers@[i]).wf(
            &self.vault)
        &&& forall|i: int| 0 <= i < self.queue@.len()
            ==> (#[trigger] self.queue@[i]).payload@.len() <= MAX_PT + 16
        &&& forall|i: int| 0 <= i < self.completions@.len()
            ==> (#[trigger] self.completions@[i]).1@.len() == 32
        &&& completions_witnessed(self.workers@, self.completions@)
        &&& forall|i: int| 0 <= i < self.used@.len() ==> (#[trigger] self.used@[i])
            < self.next_serial
        &&& self.next_serial >= SERIAL_BASE
    }

    /// Whether an address identifier is already taken on this node.
    pub open spec fn id_used(&self, id: u64) -> bool {
        self.used@.contains(id)
    }

    /// A fresh node with no workers, listeners or traffic.
    pub fn new() -> (n: Node)
        ensures
            n.wf(),
            n.workers@.len() == 0,
            n.listeners@.len() == 0,
            forall|id: u64| !n.id_used(id),
    {
        Node {
            vault: Vault::new(),
            workers: Vec::new(),
            listeners: Vec::new(),
            queue: Vec::new(),
            completions: Vec::new(),
            delivered: Vec::new(),
            used: Vec::new(),
            next_serial: SERIAL_BASE,
        }
    }

    /// Whether `id` is in the registry.
    fn contains_id(&self, id: u64) -> (r: bool)
        ensures
            r == self.id_used(id),
    {
        let mut i: usize = 0;
        while i < self.used.len()
            invariant
                i <= self.used@.len(),
                forall|t: int| 0 <= t < i ==> self.used@[t] != id,
            decreases self.used@.len() - i,
        {
            if self.used[i] == id {
                return true;
            }
            i = i + 1;
        }
        false
    }

    /// Allocate one fresh address identifier.  A random draw is tried first;
    /// on collision the sequential fallback is used, which the invariant
    /// keeps above every identifier handed out so far.
    fn alloc_id(&mut self) -> (r: Result<u64, ChannelError>)
        requires
            old(self).wf(),
        ensures
            final(self).wf(),
            final(self).vault == old(self).vault,
            final(self).workers == old(self).workers,
            final(self).listeners == old(self).listeners,
            final(self).queue == old(self).queue,
            final(self).completions == old(self).completions,
            final(self).delivered == old(self).delivered,
            r is Ok ==> !old(self).id_used(r->Ok_0) && final(self).id_used(r->Ok_0),
            r is Ok ==> final(self).used@ == old(self).used@.push(r->Ok_0),
            forall|id: u64| old(self).id_used(id) ==> final(self).id_used(id),
            final(self).next_serial == old(self).next_serial
                || final(self).next_serial == old(self).next_serial + 1,
            r is Err ==> *final(self) == *old(self) && old(self).next_serial == u64::MAX,
    {
        let cand: u64 = rand::random::<u64>() % SERIAL_BASE;
        if !self.contains_id(cand) {
            self.used.push(cand);
            proof {
                assert(self.used@ == old(self).used@.push(cand));
                assert(self.used@.contains(cand)) by {
                    assert(self.used@[self.used@.len() - 1] == cand);
                }
                assert forall|id: u64| old(self).id_used(id) implies self.id_used(id) by {
                    let t = choose|t: int| 0 <= t < old(self).used@.len()
                        && old(self).used@[t] == id;
                    assert(self.used@[t] == id);
                }
            }
            return Ok(cand);
        }
        if self.next_serial == u64::MAX {
            return Err(ChannelError::RoutingError);
        }
        let id = self.next_serial;
        self.next_serial = self.next_serial + 1;
        self.used.push(id);
        proof {
            assert(!old(self).id_used(id));
            assert(self.used@.contains(id)) by {
                assert(self.used@[self.used@.len() - 1] == id);
            }
            assert forall|id2: u64| old(self).id_used(id2) implies self.id_used(id2) by {
                let t = choose|t: int| 0 <= t < old(self).used@.len()
                    && old(self).used@[t] == id2;
                assert(self.used@[t] == id2);
            }
        }
        Ok(id)
    }

    /// Allocate the local/remote address pair of a new channel endpoint,
    /// atomically.  The two are distinct from each other and from every
    /// address previously allocated on this node.
    pub fn alloc_pair(&mut self) -> (r: Result<(Address, Address), ChannelError>)
        requires
            old(self).wf(),
        ensures
            final(self).wf(),
            final(self).vault == old(self).vault,
            final(self).workers == old(self).workers,
            final(self).listeners == old(self).listeners,
            final(self).queue == old(self).queue,
            final(self).completions == old(self).completions,
            final(self).delivered == old(self).delivered,
            r is Ok ==> ({
                let (la, ra) = r->Ok_0;
                &&& la.id != ra.id
                &&& !old(self).id_used(la.id)
                &&& !old(self).id_used(ra.id)
                &&& final(self).id_used(la.id)
                &&& final(self).id_used(ra.id)
            }),
            forall|id: u64| old(self).id_used(id) ==> final(self).id_used(id),
            old(self).used@.len() <= final(self).used@.len(),
            forall|i: int| 0 <= i < old(self).used@.len()
                ==> final(self).used@[i] == old(self).used@[i],
            r is Err ==> old(self).next_serial >= u64::MAX - 1,
    {
        let la = match self.alloc_id() {
            Ok(x) => x,
            Err(e) => {
                return Err(e);
            }
        };
        let ra = match self.alloc_id() {
            Ok(x) => x,
            Err(e) => {
                return Err(e);
            }
        };
        Ok((Address { id: la }, Address { id: ra }))
    }

    /// Register a listener at a well-known address.  Fails if the address is
    /// already taken on this node.
    pub fn register_listener(&mut self, address: Address) -> (r: Result<(), ChannelError>)
        requires
            old(self).wf(),
        ensures
            final(self).wf(),
            r is Ok ==> !old(self).id_used(address.id) && final(self).listeners@
                == old(self).listeners@.push(address),
            r is Err ==> r->Err_0 is RoutingError && *final(self) == *old(self)
                && (old(self).id_used(address.id) || address.id == u64::MAX),
    {
        if self.contains_id(address.id) {
            return Err(ChannelError::RoutingError);
        }
        if address.id >= self.next_serial {
            // Keep the registry invariant: advance the serial horizon past
            // the newly registered identifier.
            if address.id == u64::MAX {
                return Err(ChannelError::RoutingError);
            }
            self.next_serial = address.id + 1;
            proof {
                assert forall|i: int| 0 <= i < self.used@.len()
                    implies (#[trigger] self.used@[i]) < self.next_serial by {
                    assert(old(self).used@[i] < old(self).next_serial);
                }
            }
        }
        self.used.push(address.id);
        self.listeners.push(address);
        Ok(())
    }

    /// Whether `a` is a registered listener address.
    fn is_listener(&self, a: Address) -> (r: bool)
        ensures
            r == self.listeners@.contains(a),
    {
        let mut i: usize = 0;
        while i < self.listeners.len()
            invariant
                i <= self.listeners@.len(),
                forall|t: int| 0 <= t < i ==> self.listeners@[t] != a,
            decreases self.listeners@.len() - i,
        {
            if self.listeners[i].id == a.id {
                proof {
                    assert(self.listeners@[i as int] == a);
                }
                return true;
            }
            i = i + 1;
        }
        false
    }

    /// Index of the worker whose remote address is `a`, if any.
    fn find_by_remote(&self, a: Address) -> (r: Option<usize>)
        ensures
            r is Some ==> r->Some_0 < self.workers@.len()
                && self.workers@[r->Some_0 as int].addr_remote == a
                && (forall|t: int| 0 <= t < r->Some_0
                    ==> (#[trigger] self.workers@[t]).addr_remote != a),
            r is None ==> forall|t: int| 0 <= t < self.workers@.len()
                ==> (#[trigger] self.workers@[t]).addr_remote != a,
    {
        let mut i: usize = 0;
        while i < self.workers.len()
            invariant
                i <= self.workers@.len(),
                forall|t: int| 0 <= t < i
                    ==> (#[trigger] self.workers@[t]).addr_remote != a,
            decreases self.workers@.len() - i,
        {
            if self.workers[i].addr_remote.id == a.id {
                proof {
                    assert(self.workers@[i as int].addr_remote == a);
                }
                return Some(i);
            }
            i = i + 1;
        }
        None
    }

    /// Index of the worker whose local address is `a`, if any.
    fn find_by_local(&self, a: Address) -> (r: Option<usize>)
        ensures
            r is Some ==> r->Some_0 < self.workers@.len()
                && self.workers@[r->Some_0 as int].addr_local == a
                && (forall|t: int| 0 <= t < r->Some_0
                    ==> (#[trigger] self.workers@[t]).addr_local != a),
            r is None ==> forall|t: int| 0 <= t < self.workers@.len()
                ==> (#[trigger] self.workers@[t]).addr_local != a,
    {
        let mut i: usize = 0;
        while i < self.workers.len()
            invariant
                i <= self.workers@.len(),
                forall|t: int| 0 <= t < i
                    ==> (#[trigger] self.workers@[t]).addr_local != a,
            decreases self.workers@.len() - i,
        {
            if self.workers[i].addr_local.id == a.id {
                proof {
                    assert(self.workers@[i as int].addr_local == a);
                }
                return Some(i);
            }
            i = i + 1;
        }
        None
    }

    /// A message queued for `a` finds an owner: a listener, or a worker's
    /// network-facing address.
    pub open spec fn resolvable(&self, a: Address) -> bool {
        self.listeners@.contains(a) || exists|i: int| 0 <= i < self.workers@.len()
            && (#[trigger] self.workers@[i]).addr_remote == a
    }

    /// Whether a message queued for `a` would find an owner right now.
    pub fn resolves(&self, a: Address) -> (r: bool)
        ensures
            r == self.resolvable(a),
    {
        if self.is_listener(a) {
            return true;
        }
        match self.find_by_remote(a) {
            Some(_) => true,
            None => false,
        }
    }

    /// Spawn a responder worker for a first-contact peer: a fresh, distinct
    /// address pair and the peer's reply mailbox as its route.  Returns the
    /// new worker's index; nothing is spawned only when the address space is
    /// exhausted.
    fn spawn_responder(&mut self, reply: Address) -> (r: Option<usize>)
        requires
            old(self).wf(),
        ensures
            final(self).wf(),
            final(self).listeners == old(self).listeners,
            forall|id: u64| old(self).id_used(id) ==> final(self).id_used(id),
            Vault::extends(&old(self).vault, &final(self).vault),
            final(self).queue == old(self).queue,
            final(self).completions == old(self).completions,
            final(self).delivered == old(self).delivered,
            final(self).workers@.len() >= old(self).workers@.len(),
            forall|i: int| 0 <= i < old(self).workers@.len()
                ==> (#[trigger] final(self).workers@[i]) == old(self).workers@[i],
            r is None ==> old(self).next_serial >= u64::MAX - 1
                && final(self).workers == old(self).workers,
            r is Some ==> ({
                let w = final(self).workers@.last();
                &&& r->Some_0 == old(self).workers@.len()
                &&& final(self).workers@.len() == old(self).workers@.len() + 1
                &&& !w.is_initiator
                &&& w.state is Handshaking
                &&& !old(self).id_used(w.addr_local.id)
                &&& !old(self).id_used(w.addr_remote.id)
                &&& w.addr_local.id != w.addr_remote.id
                &&& w.route.hops@ == seq![reply]
            }),
    {
        let pair = match self.alloc_pair() {
            Ok(p) => p,
            Err(_) => {
                return None;
            }
        };
        let (la, ra) = pair;
        let ex = KeyExchanger::responder(&mut self.vault);
        proof {
            assert forall|i: int| 0 <= i < self.workers@.len()
                implies (#[trigger] self.workers@[i]).wf(&self.vault) by {
                old(self).workers@[i].lemma_wf_extends(&old(self).vault, &self.vault);
            }
        }
        let mut hops: Vec<Address> = Vec::new();
        hops.push(reply);
        let w = SecureChannelWorker::new(false, Route { hops }, ra, la, ex, &self.vault);
        proof {
            lemma_witnessed_push_worker(self.workers@, w, self.completions@);
            assert(w.route.hops@ =~= seq![reply]);
        }
        let idx = self.workers.len();
        self.workers.push(w);
        Some(idx)
    }

    /// First contact at a listener address: spawn a responder worker, hand
    /// it the triggering message, and queue its reply, if any, back at the
    /// peer.
    fn step_listener(&mut self, env: Envelope)
        requires
            old(self).wf(),
            env.payload@.len() <= MAX_PT + 16,
        ensures
            final(self).wf(),
            final(self).listeners == old(self).listeners,
            forall|id: u64| old(self).id_used(id) ==> final(self).id_used(id),
            Vault::extends(&old(self).vault, &final(self).vault),
            final(self).workers@.len() >= old(self).workers@.len(),
            forall|i: int| 0 <= i < old(self).workers@.len() ==> ({
                &&& (#[trigger] final(self).workers@[i]).addr_local
                    == old(self).workers@[i].addr_local
                &&& final(self).workers@[i].addr_remote == old(self).workers@[i].addr_remote
                &&& final(self).workers@[i].is_initiator == old(self).workers@[i].is_initiator
                &&& final(self).workers@[i] == old(self).workers@[i]
            }),
            old(self).completions@.is_prefix_of(final(self).completions@),
            old(self).delivered@.is_prefix_of(final(self).delivered@),
            final(self).queue@ == old(self).queue@
                || (final(self).queue@.len() == old(self).queue@.len() + 1
                    && final(self).queue@.take(old(self).queue@.len() as int)
                        == old(self).queue@
                    && final(self).queue@.last().dest == env.reply),
            old(self).next_serial < u64::MAX - 1 ==> ({
                let w = final(self).workers@[old(self).workers@.len() as int];
                &&& final(self).workers@.len() == old(self).workers@.len() + 1
                &&& !w.is_initiator
                &&& !old(self).id_used(w.addr_local.id)
                &&& !old(self).id_used(w.addr_remote.id)
                &&& w.addr_local.id != w.addr_remote.id
                &&& w.route.hops@ == seq![env.reply]
            }),
    {
        let idx = match self.spawn_responder(env.reply) {
            Some(i) => i,
            None => {
                return;
            }
        };
        let ra = self.workers[idx].addr_remote;
        let env2 = Envelope { dest: ra, reply: env.reply, payload: env.payload };
        self.step_deliver(env2, idx);
    }

    /// Deliver a message to the worker at `idx`, the first owner of the    /// Deliver a message to the worker at `idx`, the first owner of the    /// Deliver a message to the worker at `idx`, the first owner of the
    /// destination address.  Exactly that session advances, per the
    /// worker's own contract; every other worker is untouched.
    #[verifier::rlimit(100)]
    fn step_deliver(&mut self, env: Envelope, idx: usize)
        requires
            old(self).wf(),
            env.payload@.len() <= MAX_PT + 16,
            idx < old(self).workers@.len(),
        ensures
            final(self).wf(),
            final(self).listeners == old(self).listeners,
            final(self).used == old(self).used,
            Vault::extends(&old(self).vault, &final(self).vault),
            final(self).workers@.len() == old(self).workers@.len(),
            forall|t: int| 0 <= t < old(self).workers@.len() && t != idx
                ==> (#[trigger] final(self).workers@[t]) == old(self).workers@[t],
            ({
                let w0 = old(self).workers@[idx as int];
                let w1 = final(self).workers@[idx as int];
                &&& w1.addr_local == w0.addr_local
                &&& w1.addr_remote == w0.addr_remote
                &&& w1.is_initiator == w0.is_initiator
                &&& (w1.state is Handshaking ==> w0.state is Handshaking)
                &&& (w0.state is Handshaking ==> w1.route.hops@ == seq![env.reply])
                &&& (!(w0.state is Handshaking) ==> w1.route == w0.route)
            }),
            old(self).completions@.is_prefix_of(final(self).completions@),
            old(self).delivered@.is_prefix_of(final(self).delivered@),
            final(self).queue@ == old(self).queue@
                || (final(self).queue@.len() == old(self).queue@.len() + 1
                    && final(self).queue@.take(old(self).queue@.len() as int)
                        == old(self).queue@
                    && final(self).queue@.last().dest == env.reply),
            ({
                let w = old(self).workers@[idx as int];
                let pl = env.payload@;
                let k = old(self).vault.val(w.k_recv_h as int);
                let n = crate::codec::de64s(pl.take(8));
                &&& (w.state is Established ==> {
                    &&& final(self).completions@ == old(self).completions@
                    &&& final(self).queue@ == old(self).queue@
                    &&& if pl.len() >= 8 && n < crate::crypto::MOD32 && n > w.recv_max
                        && crate::vault::dec_frame(k, n as u64, 0, pl.skip(8)) is Some {
                        &&& final(self).delivered@.len() == old(self).delivered@.len() + 1
                        &&& final(self).delivered@.last().0 == w.addr_local
                        &&& final(self).delivered@.last().1@
                            == crate::vault::dec_frame(k, n as u64, 0, pl.skip(8))->Some_0
                    } else {
                        final(self).delivered@ == old(self).delivered@
                    }
                })
                &&& (w.state is Handshaking
                        && final(self).workers@[idx as int].state is Established ==> {
                    &&& final(self).completions@.len() == old(self).completions@.len() + 1
                    &&& final(self).completions@.last().0 == w.addr_local
                    &&& final(self).completions@.last().1@
                        == crate::codec::auth32(final(self).workers@[idx as int].ex.auth)
                })
                &&& (!(w.state is Handshaking
                        && final(self).workers@[idx as int].state is Established)
                    ==> final(self).completions@ == old(self).completions@)
            }),
    {
        let mut w = self.workers.remove(idx);
        let handshaking = match w.state {
            WorkerState::Handshaking => true,
            _ => false,
        };
        if handshaking {
            // Later messages from this peer must reach it directly, so the
            // reply mailbox becomes the stored route.
            let mut hops: Vec<Address> = Vec::new();
            hops.push(env.reply);
            w.route = Route { hops };
        }
        let ghost pre_vault = self.vault;
        let out = w.handle_remote(&mut self.vault, &env.payload);
        proof {
            assert forall|i: int| 0 <= i < self.workers@.len()
                implies (#[trigger] self.workers@[i]).wf(&self.vault) by {
                self.workers@[i].lemma_wf_extends(&pre_vault, &self.vault);
            }
        }
        let wl = w.addr_local;
        proof {
            assert(old(self).workers@.remove(idx as int).insert(idx as int, w)
                =~= old(self).workers@.update(idx as int, w));
            lemma_witnessed_update_worker(old(self).workers@, idx as int, w,
                self.completions@);
        }
        self.workers.insert(idx, w);
        match out.to_route {
            Some(b) => {
                if b.len() <= MAX_PT + 16 {
                    self.queue.push(Envelope { dest: env.reply, reply: env.dest, payload: b });
                    proof {
                        assert(self.queue@.take(old(self).queue@.len() as int)
                            =~= old(self).queue@);
                    }
                }
            }
            None => {}
        }
        match out.completion {
            Some(c) => {
                proof {
                    lemma_witnessed_push_completion(self.workers@, self.completions@,
                        idx as int, (wl, c));
                }
                self.completions.push((wl, c));
            }
            None => {}
        }
        match out.to_local {
            Some(p) => {
                self.delivered.push((wl, p));
            }
            None => {}
        }
    }

    /// Deliver the head of the queue to its owner, if any.  An envelope for
    /// a listener spawns a fresh responder worker fed the triggering
    /// message; one for a worker's remote address advances exactly that
    /// session per the worker's own contract; an unresolvable destination is
    /// dropped.  Every worker that is not the addressed one is untouched,
    /// so a fault in one session never reaches another.
    #[verifier::rlimit(100)]
    pub fn step(&mut self)
        requires
            old(self).wf(),
        ensures
            final(self).wf(),
            final(self).listeners == old(self).listeners,
            forall|id: u64| old(self).id_used(id) ==> final(self).id_used(id),
            Vault::extends(&old(self).vault, &final(self).vault),
            // Registered workers persist in place: address pair and role
            // kept, never back into Handshaking.
            final(self).workers@.len() >= old(self).workers@.len(),
            forall|i: int| 0 <= i < old(self).workers@.len() ==> ({
                &&& (#[trigger] final(self).workers@[i]).addr_local
                    == old(self).workers@[i].addr_local
                &&& final(self).workers@[i].addr_remote == old(self).workers@[i].addr_remote
                &&& final(self).workers@[i].is_initiator == old(self).workers@[i].is_initiator
                &&& (final(self).workers@[i].state is Handshaking
                    ==> old(self).workers@[i].state is Handshaking)
            }),
            old(self).completions@.is_prefix_of(final(self).completions@),
            old(self).delivered@.is_prefix_of(final(self).delivered@),
            old(self).queue@.len() == 0 ==> *final(self) == *old(self),
            // The head is consumed; at most one envelope replaces it, and it
            // is addressed to the consumed envelope's reply mailbox.
            old(self).queue@.len() > 0 ==> ({
                final(self).queue@ == old(self).queue@.skip(1)
                    || (final(self).queue@.len() == old(self).queue@.len()
                        && final(self).queue@.take(old(self).queue@.len() - 1)
                            == old(self).queue@.skip(1)
                        && final(self).queue@.last().dest == old(self).queue@[0].reply)
            }),
            // First contact at a listener: exactly one responder worker is
            // spawned and fed the message, with a fresh, distinct address
            // pair and the peer's reply mailbox as its route.
            old(self).queue@.len() > 0
                && old(self).listeners@.contains(old(self).queue@[0].dest)
                && old(self).next_serial < u64::MAX - 1 ==> ({
                let env = old(self).queue@[0];
                let w = final(self).workers@.last();
                &&& final(self).workers@.len() == old(self).workers@.len() + 1
                &&& !w.is_initiator
                &&& !old(self).id_used(w.addr_local.id)
                &&& !old(self).id_used(w.addr_remote.id)
                &&& w.addr_local.id != w.addr_remote.id
                &&& w.route.hops@ == seq![env.reply]
            }),
            // Dispatch to a worker's remote address: only the first owner is
            // stepped; everything it does is fixed by its own contract.
            old(self).queue@.len() > 0
                && !old(self).listeners@.contains(old(self).queue@[0].dest) ==> ({
                let env = old(self).queue@[0];
                &&& final(self).workers@.len() == old(self).workers@.len()
                &&& ((forall|t: int| 0 <= t < old(self).workers@.len()
                        ==> (#[trigger] old(self).workers@[t]).addr_remote != env.dest)
                    ==> final(self).workers@ == old(self).workers@
                        && final(self).completions@ == old(self).completions@
                        && final(self).delivered@ == old(self).delivered@
                        && final(self).vault == old(self).vault)
                &&& forall|i: int| 0 <= i < old(self).workers@.len()
                    && (#[trigger] old(self).workers@[i]).addr_remote == env.dest
                    && (forall|u: int| 0 <= u < i
                        ==> (#[trigger] old(self).workers@[u]).addr_remote != env.dest)
                    ==> ({
                        let w = old(self).workers@[i];
                        let pl = env.payload@;
                        let k = old(self).vault.val(w.k_recv_h as int);
                        let n = crate::codec::de64s(pl.take(8));
                        &&& (forall|t: int| 0 <= t < old(self).workers@.len() && t != i
                            ==> (#[trigger] final(self).workers@[t])
                                == old(self).workers@[t])
                        &&& (w.state is Established ==> {
                            &&& final(self).completions@ == old(self).completions@
                            &&& if pl.len() >= 8 && n < crate::crypto::MOD32
                                && n > w.recv_max
                                && crate::vault::dec_frame(k, n as u64, 0, pl.skip(8))
                                    is Some {
                                &&& final(self).delivered@.len()
                                    == old(self).delivered@.len() + 1
                                &&& final(self).delivered@.last().0 == w.addr_local
                                &&& final(self).delivered@.last().1@
                                    == crate::vault::dec_frame(k, n as u64, 0,
                                        pl.skip(8))->Some_0
                            } else {
                                final(self).delivered@ == old(self).delivered@
                            }
                        })
                        &&& (w.state is Handshaking
                                && final(self).workers@[i].state is Established ==> {
                            &&& final(self).completions@.len()
                                == old(self).completions@.len() + 1
                            &&& final(self).completions@.last().0 == w.addr_local
                            &&& final(self).completions@.last().1@
                                == crate::codec::auth32(final(self).workers@[i].ex.auth)
                        })
                        &&& (!(w.state is Handshaking
                                && final(self).workers@[i].state is Established)
                            ==> final(self).completions@ == old(self).completions@)
                    })
            }),
    {
        if self.queue.len() == 0 {
            return;
        }
        let env = self.queue.remove(0);
        proof {
            assert(self.queue@ =~= old(self).queue@.skip(1));
        }
        if self.is_listener(env.dest) {
            self.step_listener(env);
            return;
        }
        let idx = match self.find_by_remote(env.dest) {
            Some(i) => i,
            None => {
                return;
            }
        };
        self.step_deliver(env, idx);
        proof {
            assert forall|i: int| 0 <= i < old(self).workers@.len()
                && (#[trigger] old(self).workers@[i]).addr_remote
                    == old(self).queue@[0].dest
                && (forall|u: int| 0 <= u < i
                    ==> (#[trigger] old(self).workers@[u]).addr_remote
                        != old(self).queue@[0].dest)
                implies i == idx by {
                if i < idx {
                    assert(old(self).workers@[i].addr_remote != old(self).queue@[0].dest);
                }
                if idx < i {
                    assert(old(self).workers@[idx as int].addr_remote
                        != old(self).queue@[0].dest);
                }
            }
        }
    }

    /// Hand an application plaintext to the worker that owns local address
    /// `a`: it is sealed exactly as the worker's contract fixes it (clear
    /// nonce, then ciphertext and authenticator under the send key) and
    /// queued toward the worker's route head.
    pub fn send_plaintext(&mut self, a: Address, pt: &Vec<u8>) -> (r: Result<(), ChannelError>)
        requires
            old(self).wf(),
            pt@.len() <= MAX_PT,
        ensures
            final(self).wf(),
            final(self).listeners == old(self).listeners,
            final(self).completions == old(self).completions,
            final(self).delivered == old(self).delivered,
            final(self).used == old(self).used,
            final(self).vault == old(self).vault,
            final(self).workers@.len() == old(self).workers@.len(),
            forall|t: int| 0 <= t < old(self).workers@.len()
                && ((#[trigger] old(self).workers@[t]).addr_local != a
                    || (exists|u: int| 0 <= u < t
                        && (#[trigger] old(self).workers@[u]).addr_local == a))
                ==> final(self).workers@[t] == old(self).workers@[t],
            r is Err ==> final(self).queue == old(self).queue
                && final(self).workers@ == old(self).workers@,
            r == Result::<(), ChannelError>::Err(ChannelError::RoutingError)
                <==> (forall|t: int| 0 <= t < old(self).workers@.len()
                    ==> (#[trigger] old(self).workers@[t]).addr_local != a)
                || (exists|i: int| 0 <= i < old(self).workers@.len()
                    && (#[trigger] old(self).workers@[i]).addr_local == a
                    && (forall|u: int| 0 <= u < i
                        ==> (#[trigger] old(self).workers@[u]).addr_local != a)
                    && old(self).workers@[i].route.hops@.len() == 0),
            forall|i: int| 0 <= i < old(self).workers@.len()
                && (#[trigger] old(self).workers@[i]).addr_local == a
                && (forall|u: int| 0 <= u < i
                    ==> (#[trigger] old(self).workers@[u]).addr_local != a)
                && old(self).workers@[i].route.hops@.len() > 0
                ==> ({
                    let w = old(self).workers@[i];
                    let k = old(self).vault.val(w.k_send_h as int);
                    &&& (!(w.state is Established)
                        ==> r == Result::<(), ChannelError>::Err(
                            ChannelError::ProtocolViolation))
                    &&& (w.state is Established && w.send_nonce >= crate::crypto::MOD32 - 1
                        ==> r == Result::<(), ChannelError>::Err(ChannelError::VaultError))
                    &&& (w.state is Established && w.send_nonce < crate::crypto::MOD32 - 1
                        ==> {
                        &&& r is Ok
                        &&& final(self).queue@.len() == old(self).queue@.len() + 1
                        &&& final(self).queue@.take(old(self).queue@.len() as int)
                            == old(self).queue@
                        &&& final(self).queue@.last().dest == w.route.hops@[0]
                        &&& final(self).queue@.last().reply == w.addr_remote
                        &&& final(self).queue@.last().payload@
                            == crate::codec::be64s(w.send_nonce)
                                + crate::vault::enc_frame(k, w.send_nonce, 0, pt@)
                        &&& final(self).workers@[i].send_nonce == w.send_nonce + 1
                        &&& final(self).workers@[i].state is Established
                    })
                }),
    {
        let idx = match self.find_by_local(a) {
            Some(i) => i,
            None => {
                return Err(ChannelError::RoutingError);
            }
        };
        let mut w = self.workers.remove(idx);
        if w.route.hops.len() == 0 {
            self.workers.insert(idx, w);
            proof {
                assert(old(self).workers@.remove(idx as int).insert(idx as int,
                    old(self).workers@[idx as int]) =~= old(self).workers@);
                assert(self.workers@ =~= old(self).workers@);
            }
            return Err(ChannelError::RoutingError);
        }
        let outcome = w.handle_local(&self.vault, pt);
        let wr = w.addr_remote;
        let d = w.route.hops[0];
        proof {
            assert(old(self).workers@.remove(idx as int).insert(idx as int, w)
                =~= old(self).workers@.update(idx as int, w));
            lemma_witnessed_update_worker(old(self).workers@, idx as int, w,
                self.completions@);
        }
        self.workers.insert(idx, w);
        match outcome {
            Ok(sealed) => {
                proof {
                    crate::vault::lemma_dec_enc(
                        old(self).vault.val(old(self).workers@[idx as int].k_send_h as int),
                        old(self).workers@[idx as int].send_nonce, 0, pt@);
                }
                self.queue.push(Envelope { dest: d, reply: wr, payload: sealed });
                proof {
                    assert(self.queue@.take(old(self).queue@.len() as int)
                        =~= old(self).queue@);
                }
                Ok(())
            }
            Err(e) => {
                proof {
                    assert(self.workers@ =~= old(self).workers@);
                }
                Err(e)
            }
        }
    }

    /// Take the plaintext delivered to local address `a`, oldest first, if
    /// any is waiting.  The entry handed out is removed; everything else is
    /// untouched.
    pub fn take_delivered(&mut self, a: Address) -> (r: Option<Vec<u8>>)
        requires
            old(self).wf(),
        ensures
            final(self).wf(),
            final(self).workers == old(self).workers,
            final(self).listeners == old(self).listeners,
            final(self).queue == old(self).queue,
            final(self).completions == old(self).completions,
            final(self).used == old(self).used,
            final(self).vault == old(self).vault,
            r is None <==> (forall|t: int| 0 <= t < old(self).delivered@.len()
                ==> (#[trigger] old(self).delivered@[t]).0 != a),
            r is None ==> *final(self) == *old(self),
            r is Some ==> exists|i: int| 0 <= i < old(self).delivered@.len()
                && (#[trigger] old(self).delivered@[i]).0 == a
                && (forall|t: int| 0 <= t < i ==> (#[trigger] old(self).delivered@[t]).0 != a)
                && r->Some_0 == old(self).delivered@[i].1
                && final(self).delivered@ == old(self).delivered@.remove(i),
    {
        let mut i: usize = 0;
        while i < self.delivered.len()
            invariant
                i <= self.delivered@.len(),
                old(self).wf(),
                *self == *old(self),
                forall|t: int| 0 <= t < i ==> (#[trigger] self.delivered@[t]).0 != a,
            decreases self.delivered@.len() - i,
        {
            if self.delivered[i].0.id == a.id {
                proof {
                    assert(self.delivered@[i as int].0 == a);
                }
                let (_, p) = self.delivered.remove(i);
                return Some(p);
            }
            i = i + 1;
        }
        None
    }

    /// Take the completion event of local address `a`, if it has arrived.
    /// The event is consumed exactly once: it is removed here and a second
    /// take returns nothing until another completion is emitted.  The value
    /// handed out is the pending event's 32-byte authentication value, which
    /// the node invariant ties to the transcript value of a settled worker
    /// owning that address.
    pub fn take_completion(&mut self, a: Address) -> (r: Option<Vec<u8>>)
        requires
            old(self).wf(),
        ensures
            final(self).wf(),
            final(self).workers == old(self).workers,
            final(self).listeners == old(self).listeners,
            final(self).queue == old(self).queue,
            final(self).delivered == old(self).delivered,
            final(self).used == old(self).used,
            final(self).vault == old(self).vault,
            r is None <==> (forall|t: int| 0 <= t < old(self).completions@.len()
                ==> (#[trigger] old(self).completions@[t]).0 != a),
            r is None ==> *final(self) == *old(self),
            r is Some ==> r->Some_0@.len() == 32,
            r is Some ==> exists|i: int| 0 <= i < old(self).completions@.len()
                && (#[trigger] old(self).completions@[i]).0 == a
                && (forall|t: int| 0 <= t < i
                    ==> (#[trigger] old(self).completions@[t]).0 != a)
                && r->Some_0 == old(self).completions@[i].1
                && final(self).completions@ == old(self).completions@.remove(i),
            r is Some ==> exists|j: int| 0 <= j < old(self).workers@.len()
                && (#[trigger] old(self).workers@[j]).addr_local == a
                && !(old(self).workers@[j].state is Handshaking)
                && r->Some_0@ == crate::codec::auth32(old(self).workers@[j].ex.auth),
    {
        let mut i: usize = 0;
        while i < self.completions.len()
            invariant
                i <= self.completions@.len(),
                old(self).wf(),
                *self == *old(self),
                forall|t: int| 0 <= t < i ==> (#[trigger] self.completions@[t]).0 != a,
            decreases self.completions@.len() - i,
        {
            if self.completions[i].0.id == a.id {
                proof {
                    assert(self.completions@[i as int].0 == a);
                    assert(self.completions@[i as int].1@.len() == 32);
                    lemma_witnessed_remove(self.workers@, self.completions@, i as int);
                }
                let (_, c) = self.completions.remove(i);
                return Some(c);
            }
            i = i + 1;
        }
        None
    }
}

} // verus!
