//! Replication of write operations across cluster nodes.
//!
//! When replication is enabled, a write is forwarded to N replica nodes in
//! addition to the primary node. Replica nodes are the next N nodes after the
//! primary: if `hash(key) % num_nodes = i`, replicas are at
//! `(i+1) % num_nodes`, `(i+2) % num_nodes`, etc.

use crate::constants::{OPC_APPEND, OPC_INSERT, OPC_REMOVE, REC_SUCC};
use crate::hash_util::{hash_bytes, law_route_in_range, route, HashUtil};
use crate::host_entity::{host_views, HostEntity};
use crate::membership::{alive_nodes, law_alive_nodes, MemberView, MembershipManager, NodeState};
use crate::novoht::NoVoHT;
use crate::text::{
    copy_bytes, has_prefix, law_text_round_trip, starts_with, text_lossy, text_of, utf8_bytes,
};
use crate::worker::{
    after_poll, after_request, answer, is_callback, is_refused, law_codes_name_operations,
    request_for, request_operation, stored, HTWorker, HTWorkerMetrics, Operation, PendingCallback,
    Processed,
};
use crate::zpack::{empty_zpack, ZPack, ZPackView};
use vstd::prelude::*;
use vstd::utf8::*;

verus! {

/// A message that is to be sent to a node.
#[derive(Debug)]
pub struct Outgoing {
    /// The node.
    pub host: HostEntity,
    /// The message.
    pub request: ZPack,
}

impl View for Outgoing {
    type V = ((Seq<char>, u16), ZPackView);

    open spec fn view(&self) -> ((Seq<char>, u16), ZPackView) {
        (self.host@, self.request@)
    }
}

/// The views of the messages of a vector.
pub open spec fn outgoing_views(v: Seq<Outgoing>) -> Seq<((Seq<char>, u16), ZPackView)> {
    v.map_values(|m: Outgoing| m@)
}

/// The position of the replica with number `i` among `count` nodes: the
/// positions behind that of the primary node, going round.
pub open spec fn replica_position(key: Seq<char>, count: nat, i: int) -> int {
    (route(key, count) + i + 1) % (count as int)
}

/// The replica nodes of a key: the `n` nodes behind its primary node, going
/// round.
pub open spec fn replica_nodes(key: Seq<char>, nodes: Seq<(Seq<char>, u16)>, n: nat) -> Seq<
    (Seq<char>, u16),
> {
    if nodes.len() == 0 {
        Seq::empty()
    } else {
        Seq::new(n, |i: int| nodes[replica_position(key, nodes.len(), i)])
    }
}

/// A request that forwards a write.
pub open spec fn write_request(code: Seq<char>, key: Seq<char>, value: Seq<u8>) -> ZPackView {
    ZPackView { opcode: encode_utf8(code), key: encode_utf8(key), val: value, ..empty_zpack() }
}

/// The same request for each of the nodes.
pub open spec fn to_each(nodes: Seq<(Seq<char>, u16)>, request: ZPackView) -> Seq<
    ((Seq<char>, u16), ZPackView),
> {
    nodes.map_values(|node: (Seq<char>, u16)| (node, request))
}

/// The request that forwards a write.
pub fn make_write(code: &str, key: &str, value: &[u8]) -> (r: ZPack)
    ensures
        r@ == write_request(code@, key@, value@),
{
    let mut r = ZPack::default();
    r.opcode = utf8_bytes(code);
    r.key = utf8_bytes(key);
    r.val = copy_bytes(value);
    assert(r@ =~= write_request(code@, key@, value@));
    r
}

/// Manages data replication across cluster nodes.
#[derive(Debug)]
pub struct ReplicationManager {
    num_replicas: u32,
    replication_type: u32,
}

impl ReplicationManager {
    /// The number of replicas.
    pub closed spec fn replicas(&self) -> u32 {
        self.num_replicas
    }

    /// The type of replication.
    pub closed spec fn type_code(&self) -> u32 {
        self.replication_type
    }

    /// Whether writes are forwarded.
    pub open spec fn is_enabled(&self) -> bool {
        self.type_code() > 0 && self.replicas() > 0
    }

    /// The messages that forward a write.
    pub open spec fn forwarded(
        &self,
        members: Seq<MemberView>,
        code: Seq<char>,
        key: Seq<char>,
        value: Seq<u8>,
    ) -> Seq<((Seq<char>, u16), ZPackView)> {
        if self.is_enabled() {
            to_each(
                replica_nodes(key, alive_nodes(members), self.replicas() as nat),
                write_request(code, key, value),
            )
        } else {
            Seq::empty()
        }
    }

    /// Create a new replication manager.
    ///
    /// * `num_replicas` — Number of replicas (from config).
    /// * `replication_type` — 0 = disabled, 1 = client-side replication.
    pub fn new(num_replicas: u32, replication_type: u32) -> (r: ReplicationManager)
        ensures
            r.replicas() == num_replicas,
            r.type_code() == replication_type,
    {
        ReplicationManager { num_replicas, replication_type }
    }

    /// What is to be shown of each message: vectors that hold the messages of a
    /// forwarded write hold one for each replica.
    proof fn lemma_messages(
        &self,
        members: Seq<MemberView>,
        code: Seq<char>,
        key: Seq<char>,
        value: Seq<u8>,
    )
        ensures
            forall|v: Seq<Outgoing>| #[trigger]
                outgoing_views(v) == self.forwarded(members, code, key, value) ==> {
                    let alive = alive_nodes(members);
                    let n = alive.len() as int;
                    &&& !self.is_enabled() || n == 0 ==> v.len() == 0
                    &&& self.is_enabled() && n > 0 ==> {
                        &&& v.len() == self.replicas()
                        &&& forall|i: int|
                            0 <= i < v.len() ==> (#[trigger] v[i])@ == (
                                alive[(hash_bytes(encode_utf8(key)) % n + i + 1) % n],
                                write_request(code, key, value),
                            )
                    }
                },
    {
        assert forall|v: Seq<Outgoing>| #[trigger]
            outgoing_views(v) == self.forwarded(members, code, key, value) implies {
            let alive = alive_nodes(members);
            let n = alive.len() as int;
            &&& !self.is_enabled() || n == 0 ==> v.len() == 0
            &&& self.is_enabled() && n > 0 ==> {
                &&& v.len() == self.replicas()
                &&& forall|i: int|
                    0 <= i < v.len() ==> (#[trigger] v[i])@ == (
                        alive[(hash_bytes(encode_utf8(key)) % n + i + 1) % n],
                        write_request(code, key, value),
                    )
            }
        } by {
            law_forwarded_to_each_replica(self, members, code, key, value);
            assert(outgoing_views(v).len() == v.len());
            assert forall|i: int| 0 <= i < v.len() implies (#[trigger] v[i])@ == outgoing_views(v)[i] by {}
        }
    }

    fn forward(&self, membership: &MembershipManager, code: &str, key: &str, value: &[u8]) -> (r:
        Vec<Outgoing>)
        ensures
            outgoing_views(r@) == self.forwarded(membership@, code@, key@, value@),
            self.type_code() == 0 || self.replicas() == 0 || alive_nodes(membership@).len() == 0
                ==> r@.len() == 0,
            self.type_code() > 0 && self.replicas() > 0 && alive_nodes(membership@).len() > 0 ==> {
                let alive = alive_nodes(membership@);
                let n = alive.len() as int;
                &&& r@.len() == self.replicas()
                &&& forall|i: int|
                    0 <= i < r@.len() ==> {
                        let message = #[trigger] r@[i];
                        &&& message.host@ == alive[(hash_bytes(encode_utf8(key@)) % n + i + 1) % n]
                        &&& message.request.opcode@ == encode_utf8(code@)
                        &&& message.request.key@ == encode_utf8(key@)
                        &&& message.request.val@ == value@
                        &&& message.request.newval@.len() == 0
                        &&& message.request.lease@.len() == 0
                        &&& !message.request.valnull
                    }
            },
    {
        proof {
            self.lemma_messages(membership@, code@, key@, value@);
        }
        let mut out: Vec<Outgoing> = Vec::new();
        assert(outgoing_views(out@) =~= Seq::empty());
        if !self.is_replication_enabled() {
            return out;
        }
        let replicas = self.get_replica_nodes(membership, key);
        let ghost nodes = host_views(replicas@);
        let ghost request = write_request(code@, key@, value@);
        for i in 0..replicas.len()
            invariant
                nodes == host_views(replicas@),
                request == write_request(code@, key@, value@),
                outgoing_views(out@) == to_each(nodes.take(i as int), request),
        {
            let message = Outgoing {
                host: replicas[i].clone(),
                request: make_write(code, key, value),
            };
            assert(outgoing_views(out@.push(message)) =~= outgoing_views(out@).push(message@));
            out.push(message);
            assert(outgoing_views(out@) =~= to_each(nodes.take(i + 1), request));
        }
        assert(nodes.take(nodes.len() as int) =~= nodes);
        out
    }

    /// The messages that replicate an insert operation to all replica nodes.
    pub fn replicate_insert(&self, membership: &MembershipManager, key: &str, value: &[u8]) -> (r:
        Vec<Outgoing>)
        ensures
            outgoing_views(r@) == self.forwarded(membership@, OPC_INSERT@, key@, value@),
            self.type_code() == 0 || self.replicas() == 0 || alive_nodes(membership@).len() == 0
                ==> r@.len() == 0,
            self.type_code() > 0 && self.replicas() > 0 && alive_nodes(membership@).len() > 0 ==> {
                let alive = alive_nodes(membership@);
                let n = alive.len() as int;
                &&& r@.len() == self.replicas()
                &&& forall|i: int|
                    0 <= i < r@.len() ==> {
                        let message = #[trigger] r@[i];
                        &&& message.host@ == alive[(hash_bytes(encode_utf8(key@)) % n + i + 1) % n]
                        &&& message.request.opcode@ == encode_utf8("003"@)
                        &&& message.request.key@ == encode_utf8(key@)
                        &&& message.request.val@ == value@
                        &&& message.request.newval@.len() == 0
                        &&& message.request.lease@.len() == 0
                        &&& !message.request.valnull
                    }
            },
    {
        self.forward(membership, OPC_INSERT, key, value)
    }

    /// The messages that replicate a remove operation to all replica nodes.
    pub fn replicate_remove(&self, membership: &MembershipManager, key: &str) -> (r: Vec<Outgoing>)
        ensures
            outgoing_views(r@) == self.forwarded(membership@, OPC_REMOVE@, key@, Seq::empty()),
            self.type_code() == 0 || self.replicas() == 0 || alive_nodes(membership@).len() == 0
                ==> r@.len() == 0,
            self.type_code() > 0 && self.replicas() > 0 && alive_nodes(membership@).len() > 0 ==> {
                let alive = alive_nodes(membership@);
                let n = alive.len() as int;
                &&& r@.len() == self.replicas()
                &&& forall|i: int|
                    0 <= i < r@.len() ==> {
                        let message = #[trigger] r@[i];
                        &&& message.host@ == alive[(hash_bytes(encode_utf8(key@)) % n + i + 1) % n]
                        &&& message.request.opcode@ == encode_utf8("002"@)
                        &&& message.request.key@ == encode_utf8(key@)
                        &&& message.request.val@ == Seq::<u8>::empty()
                        &&& message.request.newval@.len() == 0
                        &&& message.request.lease@.len() == 0
                        &&& !message.request.valnull
                    }
            },
    {
        let nothing: Vec<u8> = Vec::new();
        assert(nothing@ =~= Seq::empty());
        self.forward(membership, OPC_REMOVE, key, &nothing)
    }

    /// The messages that replicate an append operation to all replica nodes.
    pub fn replicate_append(&self, membership: &MembershipManager, key: &str, value: &[u8]) -> (r:
        Vec<Outgoing>)
        ensures
            outgoing_views(r@) == self.forwarded(membership@, OPC_APPEND@, key@, value@),
            self.type_code() == 0 || self.replicas() == 0 || alive_nodes(membership@).len() == 0
                ==> r@.len() == 0,
            self.type_code() > 0 && self.replicas() > 0 && alive_nodes(membership@).len() > 0 ==> {
                let alive = alive_nodes(membership@);
                let n = alive.len() as int;
                &&& r@.len() == self.replicas()
                &&& forall|i: int|
                    0 <= i < r@.len() ==> {
                        let message = #[trigger] r@[i];
                        &&& message.host@ == alive[(hash_bytes(encode_utf8(key@)) % n + i + 1) % n]
                        &&& message.request.opcode@ == encode_utf8("004"@)
                        &&& message.request.key@ == encode_utf8(key@)
                        &&& message.request.val@ == value@
                        &&& message.request.newval@.len() == 0
                        &&& message.request.lease@.len() == 0
                        &&& !message.request.valnull
                    }
            },
    {
        self.forward(membership, OPC_APPEND, key, value)
    }

    /// Get the N replica nodes for a given key.
    ///
    /// If the primary node for a key is at index `i` in the active members
    /// list, replicas are at `(i+1) % n`, `(i+2) % n`, etc.
    pub fn get_replica_nodes(&self, membership: &MembershipManager, key: &str) -> (r: Vec<
        HostEntity,
    >)
        ensures
            host_views(r@) == replica_nodes(
                key@,
                alive_nodes(membership@),
                self.replicas() as nat,
            ),
            alive_nodes(membership@).len() == 0 ==> r@.len() == 0,
            alive_nodes(membership@).len() > 0 ==> {
                let n = alive_nodes(membership@).len() as int;
                &&& r@.len() == self.replicas()
                &&& forall|i: int|
                    0 <= i < r@.len() ==> (#[trigger] r@[i])@ == alive_nodes(membership@)[(hash_bytes(
                        encode_utf8(key@),
                    ) % n + i + 1) % n]
            },
    {
        proof {
            assert forall|v: Seq<HostEntity>| #[trigger] host_views(v).len() == v.len() by {}
            assert forall|v: Seq<HostEntity>, i: int| 0 <= i < v.len() implies #[trigger] v[i]@
                == host_views(v)[i] by {}
        }
        let alive = membership.active_members();
        let ghost nodes = host_views(alive@);
        let mut out: Vec<HostEntity> = Vec::new();
        if alive.len() == 0 || self.num_replicas == 0 {
            assert(host_views(out@) =~= replica_nodes(key@, nodes, self.replicas() as nat));
            return out;
        }
        proof {
            law_route_in_range(key@, alive@.len());
        }
        let hash_code: u64 = HashUtil::gen_hash_str(key);
        let total: u64 = alive.len() as u64;
        let primary: u64 = hash_code % total;
        let mut offset: u32 = 0;
        while offset < self.num_replicas
            invariant
                total == alive@.len(),
                total > 0,
                nodes == host_views(alive@),
                primary == route(key@, nodes.len()),
                primary < total,
                offset <= self.num_replicas,
                host_views(out@) == replica_nodes(key@, nodes, offset as nat),
            decreases self.num_replicas - offset,
        {
            let index: usize = ((primary as u128 + offset as u128 + 1) % total as u128) as usize;
            assert(nodes[index as int] == alive@[index as int]@);
            let node = alive[index].clone();
            assert(host_views(out@.push(node)) =~= host_views(out@).push(node@));
            out.push(node);
            offset += 1;
            assert(host_views(out@) =~= replica_nodes(key@, nodes, offset as nat));
        }
        out
    }

    /// Check if replication is configured and enabled.
    pub fn is_replication_enabled(&self) -> (r: bool)
        ensures
            r == self.is_enabled(),
    {
        self.replication_type > 0 && self.num_replicas > 0
    }

    /// Number of replicas configured.
    pub fn replica_count(&self) -> (r: u32)
        ensures
            r == self.replicas(),
    {
        self.num_replicas
    }

    /// Replication type.
    pub fn replication_type(&self) -> (r: u32)
        ensures
            r == self.type_code(),
    {
        self.replication_type
    }
}

// ── Replicated HTWorker ─────────────────────────────────────────────────

/// The messages that replicate a request that was answered with `response`:
/// those of a write, where the response says success and the key is not empty.
pub open spec fn replication_of(
    replication: &ReplicationManager,
    members: Seq<MemberView>,
    request: ZPackView,
    response: ZPackView,
) -> Seq<((Seq<char>, u16), ZPackView)> {
    let key = text_of(request.key);
    if !has_prefix(text_of(response.lease), REC_SUCC@) || key.len() == 0 {
        Seq::empty()
    } else {
        match request_operation(request) {
            Operation::Insert => replication.forwarded(members, OPC_INSERT@, key, request.val),
            Operation::Remove => replication.forwarded(members, OPC_REMOVE@, key, Seq::empty()),
            Operation::Append => replication.forwarded(members, OPC_APPEND@, key, request.val),
            _ => Seq::empty(),
        }
    }
}

/// The messages that replicate a request that was answered with `response`.
pub fn replicate(
    replication: &ReplicationManager,
    membership: &MembershipManager,
    request: &ZPack,
    response: &ZPack,
) -> (r: Vec<Outgoing>)
    ensures
        outgoing_views(r@) == replication_of(replication, membership@, request@, response@),
{
    let nothing: Vec<Outgoing> = Vec::new();
    assert(outgoing_views(nothing@) =~= Seq::empty());
    let status = text_lossy(&response.lease);
    if !starts_with(&status, REC_SUCC) {
        return nothing;
    }
    let key = text_lossy(&request.key);
    if key.as_str().is_empty() {
        return nothing;
    }
    match Operation::from_code(&text_lossy(&request.opcode)) {
        Operation::Insert => replication.replicate_insert(membership, &key, &request.val),
        Operation::Remove => replication.replicate_remove(membership, &key),
        Operation::Append => replication.replicate_append(membership, &key, &request.val),
        _ => nothing,
    }
}

/// A wrapper around `HTWorker` that adds automatic replication.
///
/// After processing a request locally, `ReplicatedHTWorker` checks if
/// the operation was a mutating write (INSERT, REMOVE, APPEND) that
/// succeeded, and if so, gives the messages that replicate it to the
/// configured replica nodes.
pub struct ReplicatedHTWorker {
    inner: HTWorker,
    replication: ReplicationManager,
}

impl ReplicatedHTWorker {
    /// The inner worker is well-formed.
    pub closed spec fn wf(&self) -> bool {
        self.inner.wf()
    }

    /// The inner worker.
    pub closed spec fn worker(&self) -> HTWorker {
        self.inner
    }

    /// The replication manager.
    pub closed spec fn manager(&self) -> ReplicationManager {
        self.replication
    }

    /// Create a new replicated HT worker.
    pub fn new(worker: HTWorker, replication: ReplicationManager) -> (r: ReplicatedHTWorker)
        requires
            worker.wf(),
        ensures
            r.wf(),
            r.worker() == worker,
            r.manager() == replication,
    {
        ReplicatedHTWorker { inner: worker, replication }
    }

    /// Process a request locally, and give the messages that replicate it if it
    /// was a successful write. They are to be sent in the background; a
    /// failure to send one changes nothing.
    pub fn process_with_replication(
        &mut self,
        membership: &MembershipManager,
        request: &ZPack,
    ) -> (r: (Processed, Vec<Outgoing>))
        requires
            old(self).wf(),
        ensures
            final(self).wf(),
            final(self).manager() == old(self).manager(),
            after_request(old(self).worker(), request@, final(self).worker()),
            match r.0 {
                Processed::Done(response) => {
                    &&& !is_callback(request@)
                    &&& response@ == answer(old(self).worker().store_spec()@, request@)
                    &&& outgoing_views(r.1@) == replication_of(
                        &old(self).manager(),
                        membership@,
                        request@,
                        response@,
                    )
                },
                Processed::Waiting(callback) => {
                    &&& is_callback(request@)
                    &&& callback.is_for(request@)
                    &&& r.1@.len() == 0
                },
            },
    {
        match self.inner.process(request) {
            Processed::Done(response) => {
                let messages = replicate(&self.replication, membership, request, &response);
                (Processed::Done(response), messages)
            },
            Processed::Waiting(callback) => (Processed::Waiting(callback), Vec::new()),
        }
    }

    /// Process a request locally only (no replication).
    pub fn process_local(&mut self, request: &ZPack) -> (r: Processed)
        requires
            old(self).wf(),
        ensures
            final(self).wf(),
            final(self).manager() == old(self).manager(),
            after_request(old(self).worker(), request@, final(self).worker()),
            match r {
                Processed::Done(response) => !is_callback(request@) && response@ == answer(
                    old(self).worker().store_spec()@,
                    request@,
                ),
                Processed::Waiting(callback) => is_callback(request@) && callback.is_for(request@),
            },
    {
        self.inner.process(request)
    }

    /// Looks whether a waiting callback can be answered, as
    /// [`HTWorker::poll`] does.
    pub fn poll(&mut self, callback: &PendingCallback, elapsed_ms: u64) -> (r: Option<ZPack>)
        requires
            old(self).wf(),
        ensures
            final(self).wf(),
            final(self).manager() == old(self).manager(),
            after_poll(old(self).worker(), callback, elapsed_ms, r, final(self).worker()),
    {
        self.inner.poll(callback, elapsed_ms)
    }

    /// Takes the lines that are to be appended to the database file.
    pub fn take_journal(&mut self) -> (r: String)
        requires
            old(self).wf(),
        ensures
            final(self).wf(),
            final(self).manager() == old(self).manager(),
            r@ == old(self).worker().store_spec().pending(),
            final(self).worker().store_spec().pending() == Seq::<char>::empty(),
            final(self).worker().store_spec()@ == old(self).worker().store_spec()@,
            final(self).worker().store_spec().same_file(&old(self).worker().store_spec()),
            final(self).worker().metrics_spec() == old(self).worker().metrics_spec(),
    {
        self.inner.take_journal()
    }

    /// Get a reference to the inner HTWorker.
    pub fn inner(&self) -> (r: &HTWorker)
        ensures
            *r == self.worker(),
            self.wf() ==> r.wf(),
    {
        &self.inner
    }

    /// Get worker metrics.
    pub fn metrics(&self) -> (r: HTWorkerMetrics)
        ensures
            r == self.worker().metrics_spec(),
    {
        self.inner.metrics()
    }

    /// Get the underlying store.
    pub fn store(&self) -> (r: &NoVoHT)
        ensures
            *r == self.worker().store_spec(),
            self.wf() ==> r.wf(),
    {
        self.inner.store()
    }
}

// ── Laws ────────────────────────────────────────────────────────────────

/// There are as many replicas as configured, each on one of the nodes. As long
/// as there are more nodes than replicas, they are at different positions, none
/// of which is that of the primary.
pub proof fn law_replicas_spread(key: Seq<char>, nodes: Seq<(Seq<char>, u16)>, n: nat)
    requires
        nodes.len() > 0,
    ensures
        replica_nodes(key, nodes, n).len() == n,
        forall|i: int|
            0 <= i < n ==> {
                let p = #[trigger] replica_position(key, nodes.len(), i);
                &&& 0 <= p < nodes.len()
                &&& replica_nodes(key, nodes, n)[i] == nodes[p]
                &&& n < nodes.len() ==> p != route(key, nodes.len())
            },
        n < nodes.len() ==> forall|i: int, j: int|
            0 <= i < j < n ==> #[trigger] replica_position(key, nodes.len(), i)
                != #[trigger] replica_position(key, nodes.len(), j),
{
    let len = nodes.len() as int;
    let primary = route(key, nodes.len());
    law_route_in_range(key, nodes.len());
    assert forall|i: int| 0 <= i < n implies {
        let p = #[trigger] replica_position(key, nodes.len(), i);
        &&& 0 <= p < nodes.len()
        &&& replica_nodes(key, nodes, n)[i] == nodes[p]
        &&& n < nodes.len() ==> p != primary
    } by {
        vstd::arithmetic::div_mod::lemma_mod_bound(primary + i + 1, len);
        if n < nodes.len() {
            lemma_wraps(primary, i + 1, len);
        }
    }
    if n < nodes.len() {
        assert forall|i: int, j: int| 0 <= i < j < n implies #[trigger] replica_position(
            key,
            nodes.len(),
            i,
        ) != #[trigger] replica_position(key, nodes.len(), j) by {
            lemma_wraps(primary, i + 1, len);
            lemma_wraps(primary, j + 1, len);
        }
    }
}

proof fn lemma_wraps(p: int, d: int, len: int)
    requires
        0 <= p < len,
        0 < d < len,
    ensures
        (p + d) % len == (if p + d < len { p + d } else { p + d - len }),
{
    if p + d < len {
        vstd::arithmetic::div_mod::lemma_small_mod((p + d) as nat, len as nat);
    } else {
        vstd::arithmetic::div_mod::lemma_mod_sub_multiples_vanish(p + d, len);
        vstd::arithmetic::div_mod::lemma_small_mod((p + d - len) as nat, len as nat);
    }
}

/// A request that is refused is not replicated, and neither is a request that
/// does not write.
pub proof fn law_only_successful_writes_replicate(
    replication: &ReplicationManager,
    members: Seq<MemberView>,
    m: Map<Seq<char>, Seq<char>>,
    request: ZPackView,
)
    requires
        is_refused(m, request) || request_operation(request) is Lookup || request_operation(
            request,
        ) is CompareSwap || request_operation(request) is StateChangeCallback,
    ensures
        replication_of(replication, members, request, answer(m, request)).len() == 0,
{
    if text_of(request.key).len() > 0 && request_operation(request) is Remove {
        reveal_strlit("-92");
        reveal_strlit("000");
        law_text_round_trip("-92"@);
        assert("-92"@[0] == '-');
        if has_prefix("-92"@, "000"@) {
            assert("-92"@.take(3)[0] == "000"@[0]);
        }
    }
}

/// The code under which a write is forwarded.
pub open spec fn forwarding_code(op: Operation) -> Option<Seq<char>> {
    match op {
        Operation::Insert => Some(OPC_INSERT@),
        Operation::Remove => Some(OPC_REMOVE@),
        Operation::Append => Some(OPC_APPEND@),
        _ => None,
    }
}

/// A write that succeeds is forwarded to the replica nodes of its key.
pub proof fn law_successful_writes_replicate(
    replication: &ReplicationManager,
    members: Seq<MemberView>,
    m: Map<Seq<char>, Seq<char>>,
    request: ZPackView,
)
    requires
        !is_refused(m, request),
        forwarding_code(request_operation(request)) is Some,
    ensures
        replication_of(replication, members, request, answer(m, request)) == replication.forwarded(
            members,
            forwarding_code(request_operation(request))->0,
            text_of(request.key),
            if request_operation(request) is Remove {
                Seq::empty()
            } else {
                request.val
            },
        ),
{
    law_text_round_trip(REC_SUCC@);
    assert(REC_SUCC@.take(REC_SUCC@.len() as int) =~= REC_SUCC@);
}

/// A forwarded write does to a replica what the request itself would do to it:
/// a replica that holds what the primary holds does so again afterwards.
pub proof fn law_replica_follows_primary(m: Map<Seq<char>, Seq<char>>, request: ZPackView)
    requires
        !is_refused(m, request),
        forwarding_code(request_operation(request)) is Some,
    ensures
        stored(
            m,
            write_request(
                forwarding_code(request_operation(request))->0,
                text_of(request.key),
                if request_operation(request) is Remove {
                    Seq::empty()
                } else {
                    request.val
                },
            ),
        ) == stored(m, request),
{
    let key = encode_utf8(text_of(request.key));
    law_text_round_trip(text_of(request.key));
    law_codes_name_operations(key, request.val, Seq::empty());
    law_codes_name_operations(key, Seq::empty(), Seq::empty());
    assert(write_request(OPC_INSERT@, text_of(request.key), request.val) =~= request_for(
        OPC_INSERT@,
        key,
        request.val,
        Seq::empty(),
    ));
    assert(write_request(OPC_APPEND@, text_of(request.key), request.val) =~= request_for(
        OPC_APPEND@,
        key,
        request.val,
        Seq::empty(),
    ));
    assert(write_request(OPC_REMOVE@, text_of(request.key), Seq::empty()) =~= request_for(
        OPC_REMOVE@,
        key,
        Seq::empty(),
        Seq::empty(),
    ));
}

/// Where replication is on and any member is alive, a write is forwarded to as
/// many nodes as there are replicas: to those behind the node at the remainder of
/// the hash of its key, going round, whatever became of other members. Each gets
/// the write itself. Otherwise nothing is sent.
pub proof fn law_forwarded_to_each_replica(
    replication: &ReplicationManager,
    members: Seq<MemberView>,
    code: Seq<char>,
    key: Seq<char>,
    value: Seq<u8>,
)
    ensures
        ({
            let alive = members.filter_map(
                |m: MemberView|
                    if m.state == NodeState::Alive {
                        Some(m.host)
                    } else {
                        None
                    },
            );
            let n = alive.len() as int;
            let sent = replication.forwarded(members, code, key, value);
            &&& replication.type_code() == 0 || replication.replicas() == 0 || n == 0 ==> sent.len() == 0
            &&& replication.type_code() > 0 && replication.replicas() > 0 && n > 0 ==> {
                &&& sent.len() == replication.replicas()
                &&& forall|i: int|
                    0 <= i < sent.len() ==> (#[trigger] sent[i]).0 == alive[(hash_bytes(
                        encode_utf8(key),
                    ) % n + i + 1) % n]
                &&& forall|i: int|
                    0 <= i < sent.len() ==> (#[trigger] sent[i]).1 == (ZPackView {
                        opcode: encode_utf8(code),
                        key: encode_utf8(key),
                        val: value,
                        newval: Seq::empty(),
                        lease: Seq::empty(),
                        valnull: false,
                    })
            }
        }),
        alive_nodes(members) == members.filter_map(
            |m: MemberView|
                if m.state == NodeState::Alive {
                    Some(m.host)
                } else {
                    None
                },
        ),
{
    law_alive_nodes(members);
}

/// What a success calls forth, whoever answered: an insert, a remove and an append
/// with a key are forwarded as they came, and nothing else is, neither another
/// request nor one whose response does not begin with `000`.
pub proof fn law_replication_by_response(
    replication: &ReplicationManager,
    members: Seq<MemberView>,
    request: ZPackView,
    response: ZPackView,
)
    ensures
        ({
            let code = text_of(request.opcode);
            let key = text_of(request.key);
            let lease = text_of(response.lease);
            let says = lease.len() >= 3 && lease[0] == '0' && lease[1] == '0' && lease[2] == '0';
            let sent = replication_of(replication, members, request, response);
            &&& !says || key.len() == 0 || (code != "003"@ && code != "002"@ && code != "004"@)
                ==> sent.len() == 0
            &&& says && key.len() > 0 && code == "003"@ ==> sent == replication.forwarded(
                members,
                "003"@,
                key,
                request.val,
            )
            &&& says && key.len() > 0 && code == "002"@ ==> sent == replication.forwarded(
                members,
                "002"@,
                key,
                Seq::empty(),
            )
            &&& says && key.len() > 0 && code == "004"@ ==> sent == replication.forwarded(
                members,
                "004"@,
                key,
                request.val,
            )
        }),
{
    let lease = text_of(response.lease);
    reveal_strlit("000");
    reveal_strlit("001");
    reveal_strlit("002");
    reveal_strlit("003");
    reveal_strlit("004");
    reveal_strlit("005");
    reveal_strlit("006");
    assert("002"@[2] == '2' && "003"@[2] == '3' && "004"@[2] == '4' && "001"@[2] == '1' && "005"@[2]
        == '5' && "006"@[2] == '6');
    assert("000"@[0] == '0' && "000"@[1] == '0' && "000"@[2] == '0');
    if lease.len() >= 3 {
        if lease[0] == '0' && lease[1] == '0' && lease[2] == '0' {
            assert(lease.take(3) =~= "000"@);
        } else if has_prefix(lease, "000"@) {
            assert(lease.take(3)[0] == lease[0] && lease.take(3)[1] == lease[1] && lease.take(3)[2]
                == lease[2]);
        }
    }
}

/// The views of messages are their nodes and requests, one for each and in order.
pub proof fn law_outgoing_views(v: Seq<Outgoing>, i: int)
    requires
        0 <= i < v.len(),
    ensures
        outgoing_views(v).len() == v.len(),
        outgoing_views(v)[i] == ((v[i].host.host@, v[i].host.port), v[i].request@),
{
}

/// A request that forwards a write holds its code, its key and its value, and
/// nothing else.
pub proof fn law_write_request(code: Seq<char>, key: Seq<char>, value: Seq<u8>)
    ensures
        write_request(code, key, value) == (ZPackView {
            opcode: encode_utf8(code),
            key: encode_utf8(key),
            val: value,
            newval: Seq::empty(),
            lease: Seq::empty(),
            valnull: false,
        }),
{
}

/// Replication is on where there is a type and a replica.
pub proof fn law_replication_enabled(replication: &ReplicationManager)
    ensures
        replication.is_enabled() <==> replication.type_code() != 0 && replication.replicas() != 0,
{
}

} // verus!
