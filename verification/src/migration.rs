//! Migration of keys when cluster membership changes.
//!
//! When nodes join or leave the cluster, key ownership may shift
//! according to `hash(key) % num_nodes`. This module computes which keys need
//! to move, what is sent for them, and what becomes of the local store.

use crate::constants::{OPC_INSERT, REC_SUCC};
use crate::error::{error_message, ErrorView, ZhtError};
use crate::hash_util::hash_bytes;
use crate::host_entity::{host_views, HostEntity};
use crate::membership::{alive_nodes, owner, resolve_owner, MembershipManager};
use crate::novoht::{entry_line, removal_line, NoVoHT};
use crate::replication::{make_write, write_request, Outgoing};
use crate::text::{
    has_prefix, join4, law_text_round_trip, lemma_views_push, same_text, starts_with, text_lossy,
    text_of, utf8_bytes, views,
};
use crate::worker::{law_codes_name_operations, request_for, stored};
use crate::zpack::{ZPack, ZPackView};
use vstd::prelude::*;
use vstd::utf8::*;

verus! {

/// A migration action: move a set of keys from one node to another.
#[derive(Debug)]
pub struct MigrationAction {
    /// Target node to receive the keys.
    pub target_host: HostEntity,
    /// Keys to migrate.
    pub keys: Vec<String>,
}

impl Clone for MigrationAction {
    fn clone(&self) -> (r: MigrationAction)
        ensures
            r.target_host == self.target_host,
            r.keys@ == self.keys@,
    {
        let mut keys: Vec<String> = Vec::new();
        for i in 0..self.keys.len()
            invariant
                keys@ == self.keys@.take(i as int),
        {
            keys.push(self.keys[i].clone());
            assert(keys@ =~= self.keys@.take(i + 1));
        }
        assert(self.keys@.take(self.keys@.len() as int) =~= self.keys@);
        MigrationAction { target_host: self.target_host.clone(), keys }
    }
}

// ── Plans ───────────────────────────────────────────────────────────────

/// The keys that go to `target`, in order.
pub open spec fn keys_for(
    keys: Seq<Seq<char>>,
    targets: Seq<Option<(Seq<char>, u16)>>,
    target: (Seq<char>, u16),
) -> Seq<Seq<char>>
    decreases keys.len(),
{
    if keys.len() == 0 {
        Seq::empty()
    } else {
        let before = keys_for(keys.drop_last(), targets.drop_last(), target);
        if targets.last() == Some(target) {
            before.push(keys.last())
        } else {
            before
        }
    }
}

/// Whether a plan moves each key to its target, if it has one: there is one
/// action for each target, which lists the keys that go there, in order.
pub open spec fn is_plan(
    plan: Seq<MigrationAction>,
    keys: Seq<Seq<char>>,
    targets: Seq<Option<(Seq<char>, u16)>>,
) -> bool {
    &&& forall|a: int|
        0 <= a < plan.len() ==> {
            &&& views((#[trigger] plan[a]).keys@) == keys_for(keys, targets, plan[a].target_host@)
            &&& plan[a].keys@.len() > 0
        }
    &&& forall|a: int, b: int|
        0 <= a < b < plan.len() ==> (#[trigger] plan[a]).target_host@ != (
        #[trigger] plan[b]).target_host@
    &&& forall|i: int|
        0 <= i < keys.len() && (#[trigger] targets[i]) is Some ==> exists|a: int|
            0 <= a < plan.len() && Some((#[trigger] plan[a]).target_host@) == targets[i]
}

/// Where a key has to go now: to its owner among the nodes, if that is another
/// node than this one.
pub open spec fn check_target(
    key: Seq<char>,
    nodes: Seq<(Seq<char>, u16)>,
    me: (Seq<char>, u16),
) -> Option<(Seq<char>, u16)> {
    if owner(key, nodes) == Some(me) {
        None
    } else {
        owner(key, nodes)
    }
}

/// Where a key has to go when the nodes change: to its new owner, if that is
/// neither its old owner nor this node.
pub open spec fn plan_target(
    key: Seq<char>,
    old_nodes: Seq<(Seq<char>, u16)>,
    new_nodes: Seq<(Seq<char>, u16)>,
    me: (Seq<char>, u16),
) -> Option<(Seq<char>, u16)> {
    if owner(key, old_nodes) == owner(key, new_nodes) {
        None
    } else {
        check_target(key, new_nodes, me)
    }
}

/// The targets of all keys by a check.
pub open spec fn check_targets(
    keys: Seq<Seq<char>>,
    nodes: Seq<(Seq<char>, u16)>,
    me: (Seq<char>, u16),
) -> Seq<Option<(Seq<char>, u16)>> {
    keys.map_values(|k: Seq<char>| check_target(k, nodes, me))
}

/// The targets of all keys by a change of the nodes.
pub open spec fn plan_targets(
    keys: Seq<Seq<char>>,
    old_nodes: Seq<(Seq<char>, u16)>,
    new_nodes: Seq<(Seq<char>, u16)>,
    me: (Seq<char>, u16),
) -> Seq<Option<(Seq<char>, u16)>> {
    keys.map_values(|k: Seq<char>| plan_target(k, old_nodes, new_nodes, me))
}

/// The views of optional nodes.
pub open spec fn target_views(v: Seq<Option<HostEntity>>) -> Seq<Option<(Seq<char>, u16)>> {
    v.map_values(
        |t: Option<HostEntity>|
            match t {
                Some(node) => Some(node@),
                None => None,
            },
    )
}

proof fn lemma_keys_for_step(
    keys: Seq<Seq<char>>,
    targets: Seq<Option<(Seq<char>, u16)>>,
    i: int,
    target: (Seq<char>, u16),
)
    requires
        0 <= i < keys.len(),
        keys.len() == targets.len(),
    ensures
        keys_for(keys.take(i + 1), targets.take(i + 1), target) == if targets[i] == Some(target) {
            keys_for(keys.take(i), targets.take(i), target).push(keys[i])
        } else {
            keys_for(keys.take(i), targets.take(i), target)
        },
{
    assert(keys.take(i + 1).drop_last() =~= keys.take(i));
    assert(targets.take(i + 1).drop_last() =~= targets.take(i));
}

proof fn lemma_keys_for_none(
    keys: Seq<Seq<char>>,
    targets: Seq<Option<(Seq<char>, u16)>>,
    target: (Seq<char>, u16),
)
    requires
        keys.len() == targets.len(),
        forall|i: int| 0 <= i < keys.len() ==> #[trigger] targets[i] != Some(target),
    ensures
        keys_for(keys, targets, target) == Seq::<Seq<char>>::empty(),
    decreases keys.len(),
{
    if keys.len() > 0 {
        assert(targets[keys.len() - 1] != Some(target));
        assert forall|i: int| 0 <= i < keys.len() - 1 implies #[trigger] targets.drop_last()[i] != Some(target) by {
            assert(targets[i] != Some(target));
        }
        lemma_keys_for_none(keys.drop_last(), targets.drop_last(), target);
    }
}

/// Groups the keys that have a target by it.
fn group_by_target(keys: &Vec<String>, targets: &Vec<Option<HostEntity>>) -> (r: Vec<
    MigrationAction,
>)
    requires
        keys@.len() == targets@.len(),
    ensures
        is_plan(r@, views(keys@), target_views(targets@)),
{
    let ghost ks = views(keys@);
    let ghost ts = target_views(targets@);
    let mut plan: Vec<MigrationAction> = Vec::new();
    let mut i: usize = 0;
    while i < keys.len()
        invariant
            i <= keys@.len(),
            keys@.len() == targets@.len(),
            ks == views(keys@),
            ts == target_views(targets@),
            is_plan(plan@, ks.take(i as int), ts.take(i as int)),
        decreases keys@.len() - i,
    {
        let ghost before = plan@;
        let ghost k0 = ks.take(i as int);
        let ghost t0 = ts.take(i as int);
        let ghost k1 = ks.take(i + 1);
        let ghost t1 = ts.take(i + 1);
        assert(ks[i as int] == keys@[i as int]@);
        match &targets[i] {
            None => {
                proof {
                    assert(ts[i as int] is None);
                    assert forall|a: int| 0 <= a < before.len() implies views((#[trigger] before[a]).keys@)
                        == keys_for(k1, t1, before[a].target_host@) by {
                        lemma_keys_for_step(ks, ts, i as int, before[a].target_host@);
                    }
                    assert forall|j: int| 0 <= j < k1.len() && (#[trigger] t1[j]) is Some implies exists|a: int|
                        0 <= a < before.len() && Some((#[trigger] before[a]).target_host@) == t1[j] by {
                        assert(t0[j] == t1[j]);
                    }
                }
            },
            Some(target) => {
                assert(ts[i as int] == Some(target@));
                let mut at: usize = 0;
                while at < plan.len() && plan[at].target_host != *target
                    invariant
                        at <= plan@.len(),
                        forall|b: int| 0 <= b < at ==> (#[trigger] plan@[b]).target_host@ != target@,
                    decreases plan@.len() - at,
                {
                    at += 1;
                }
                let key = keys[i].clone();
                if at < plan.len() {
                    let mut existing = plan.remove(at);
                    proof {
                        lemma_views_push(existing.keys@, key);
                    }
                    existing.keys.push(key);
                    let ghost grown = existing;
                    plan.insert(at, existing);
                    proof {
                        assert(plan@ =~= before.update(at as int, grown));
                        assert forall|a: int| 0 <= a < plan@.len() implies views((#[trigger] plan@[a]).keys@)
                            == keys_for(k1, t1, plan@[a].target_host@) && plan@[a].keys@.len() > 0 by {
                            lemma_keys_for_step(ks, ts, i as int, plan@[a].target_host@);
                            if a != at {
                                assert(plan@[a] == before[a]);
                                assert(before[a].target_host@ != before[at as int].target_host@);
                            } else {
                                assert(before[a].keys@.len() > 0);
                            }
                        }
                        assert forall|a: int, b: int| 0 <= a < b < plan@.len() implies (
                        #[trigger] plan@[a]).target_host@ != (#[trigger] plan@[b]).target_host@ by {
                            assert(before[a].target_host@ != before[b].target_host@);
                        }
                        assert forall|j: int| 0 <= j < k1.len() && (#[trigger] t1[j]) is Some implies exists|a: int|
                            0 <= a < plan@.len() && Some((#[trigger] plan@[a]).target_host@) == t1[j] by {
                            if j < i {
                                assert(t0[j] == t1[j]);
                                let a = choose|a: int|
                                    0 <= a < before.len() && Some((#[trigger] before[a]).target_host@)
                                        == t0[j];
                                assert(plan@[a].target_host@ == before[a].target_host@);
                            } else {
                                assert(Some(plan@[at as int].target_host@) == t1[j]);
                            }
                        }
                    }
                } else {
                    let mut fresh: Vec<String> = Vec::new();
                    proof {
                        lemma_views_push(fresh@, key);
                        assert(views(fresh@) =~= Seq::empty());
                        assert forall|j: int| 0 <= j < k0.len() implies #[trigger] t0[j] != Some(target@) by {
                            if t0[j] == Some(target@) {
                                let a = choose|a: int|
                                    0 <= a < before.len() && Some((#[trigger] before[a]).target_host@)
                                        == t0[j];
                                assert(before[a].target_host@ == target@);
                            }
                        }
                        lemma_keys_for_none(k0, t0, target@);
                    }
                    fresh.push(key);
                    let action = MigrationAction { target_host: target.clone(), keys: fresh };
                    let ghost added = action;
                    plan.push(action);
                    proof {
                        assert forall|a: int| 0 <= a < plan@.len() implies views((#[trigger] plan@[a]).keys@)
                            == keys_for(k1, t1, plan@[a].target_host@) && plan@[a].keys@.len() > 0 by {
                            lemma_keys_for_step(ks, ts, i as int, plan@[a].target_host@);
                            if a < before.len() {
                                assert(plan@[a] == before[a]);
                                assert(before[a].keys@.len() > 0);
                            } else {
                                assert(views(added.keys@) =~= Seq::empty().push(ks[i as int]));
                            }
                        }
                        assert forall|a: int, b: int| 0 <= a < b < plan@.len() implies (
                        #[trigger] plan@[a]).target_host@ != (#[trigger] plan@[b]).target_host@ by {
                            assert(plan@[a] == before[a]);
                            if b < before.len() {
                                assert(plan@[b] == before[b]);
                            }
                        }
                        assert forall|j: int| 0 <= j < k1.len() && (#[trigger] t1[j]) is Some implies exists|a: int|
                            0 <= a < plan@.len() && Some((#[trigger] plan@[a]).target_host@) == t1[j] by {
                            if j < i {
                                assert(t0[j] == t1[j]);
                                let a = choose|a: int|
                                    0 <= a < before.len() && Some((#[trigger] before[a]).target_host@)
                                        == t0[j];
                                assert(plan@[a] == before[a]);
                            } else {
                                assert(Some(plan@[before.len() as int].target_host@) == t1[j]);
                            }
                        }
                    }
                }
            },
        }
        i += 1;
    }
    assert(ks.take(i as int) =~= ks);
    assert(ts.take(i as int) =~= ts);
    plan
}

// ── Transfers ───────────────────────────────────────────────────────────

/// The requests that hand the listed keys to another node, in the order in
/// which the store lists its keys. Keys that are not in the store have none.
pub open spec fn transfer_requests(
    order: Seq<Seq<char>>,
    m: Map<Seq<char>, Seq<char>>,
    keys: Seq<Seq<char>>,
) -> Seq<(Seq<char>, ZPackView)>
    decreases order.len(),
{
    if order.len() == 0 {
        Seq::empty()
    } else {
        let before = transfer_requests(order.drop_last(), m, keys);
        let key = order.last();
        if keys.contains(key) {
            before.push((key, write_request(OPC_INSERT@, key, encode_utf8(m[key]))))
        } else {
            before
        }
    }
}

/// The table without any of the keys.
pub open spec fn without_keys(m: Map<Seq<char>, Seq<char>>, keys: Seq<Seq<char>>) -> Map<
    Seq<char>,
    Seq<char>,
>
    decreases keys.len(),
{
    if keys.len() == 0 {
        m
    } else {
        without_keys(m, keys.drop_last()).remove(keys.last())
    }
}

/// The lines that record the removal of the keys, one after the other: those
/// that are there.
pub open spec fn removal_lines(m: Map<Seq<char>, Seq<char>>, keys: Seq<Seq<char>>) -> Seq<Seq<char>>
    decreases keys.len(),
{
    if keys.len() == 0 {
        Seq::empty()
    } else {
        let before = removal_lines(m, keys.drop_last());
        if without_keys(m, keys.drop_last()).contains_key(keys.last()) {
            before.push(removal_line(keys.last()))
        } else {
            before
        }
    }
}

/// Whether a response to a handed-over key says that it was stored.
pub open spec fn is_stored(response: ZPackView) -> bool {
    has_prefix(text_of(response.lease), REC_SUCC@)
}

/// What is reported where a key could not be handed over.
pub open spec fn failure_text(key: Seq<char>, error: ErrorView) -> Seq<char> {
    "Failed to migrate key '"@ + key + "': "@ + error_message(error)
}

/// A key that is to be handed over, and the request that does it.
#[derive(Debug)]
pub struct KeyRequest {
    /// The key.
    pub key: String,
    /// The request.
    pub request: ZPack,
}

impl View for KeyRequest {
    type V = (Seq<char>, ZPackView);

    open spec fn view(&self) -> (Seq<char>, ZPackView) {
        (self.key@, self.request@)
    }
}

/// The views of the requests of a vector.
pub open spec fn request_views(v: Seq<KeyRequest>) -> Seq<(Seq<char>, ZPackView)> {
    v.map_values(|r: KeyRequest| r@)
}

/// The hand-over of keys to one node: the requests go out one by one, and each
/// response is counted. A request that cannot be sent ends it.
#[derive(Debug)]
pub struct KeyTransfer {
    keys: Vec<String>,
    requests: Vec<KeyRequest>,
    position: usize,
    migrated: usize,
}

impl KeyTransfer {
    /// No more responses than requests, and no more keys stored than responses.
    pub closed spec fn wf(&self) -> bool {
        self.migrated <= self.position <= self.requests@.len()
    }

    /// The keys that are handed over.
    pub closed spec fn listed(&self) -> Seq<Seq<char>> {
        views(self.keys@)
    }

    /// All requests of the hand-over.
    pub closed spec fn all(&self) -> Seq<(Seq<char>, ZPackView)> {
        request_views(self.requests@)
    }

    /// How many responses came in.
    pub closed spec fn done(&self) -> nat {
        self.position as nat
    }

    /// How many of them said that the key was stored.
    pub closed spec fn count(&self) -> nat {
        self.migrated as nat
    }

    /// Whether this is the hand-over of the given keys before anything is sent.
    pub open spec fn begins(&self, store: &NoVoHT, keys: Seq<Seq<char>>) -> bool {
        &&& self.wf()
        &&& self.listed() == keys
        &&& self.all() == transfer_requests(store.order(), store@, keys)
        &&& self.done() == 0
        &&& self.count() == 0
    }

    /// The request that is to be sent next, with its key.
    pub fn next_request(&self) -> (r: Option<&KeyRequest>)
        requires
            self.wf(),
        ensures
            r is Some <==> self.done() < self.all().len(),
            r matches Some(request) ==> request@ == self.all()[self.done() as int],
    {
        if self.position < self.requests.len() {
            Some(&self.requests[self.position])
        } else {
            None
        }
    }

    /// Takes in the response to the request that was sent.
    pub fn on_response(&mut self, response: &ZPack)
        requires
            old(self).wf(),
            old(self).done() < old(self).all().len(),
        ensures
            final(self).wf(),
            final(self).listed() == old(self).listed(),
            final(self).all() == old(self).all(),
            final(self).done() == old(self).done() + 1,
            final(self).count() == old(self).count() + (if is_stored(response@) {
                1nat
            } else {
                0nat
            }),
    {
        let total: usize = self.requests.len();
        assert(self.position < total);
        if starts_with(&text_lossy(&response.lease), REC_SUCC) {
            self.migrated += 1;
        }
        self.position += 1;
    }

    /// How many keys the other node has stored so far.
    pub fn migrated_count(&self) -> (r: usize)
        ensures
            r == self.count(),
    {
        self.migrated
    }

    /// What is reported where the next request cannot be sent, which ends the
    /// hand-over: nothing is taken out of the store then.
    pub fn on_failure(&self, error: &ZhtError) -> (r: String)
        requires
            self.wf(),
            self.done() < self.all().len(),
        ensures
            r@ == failure_text(self.all()[self.done() as int].0, error@),
    {
        let words = error.to_string();
        join4("Failed to migrate key '", &self.requests[self.position].key, "': ", &words)
    }

    /// Ends a hand-over whose requests were all answered: the keys leave the
    /// store. Returns how many of them the other node stored.
    pub fn finish(&self, store: &mut NoVoHT) -> (r: usize)
        requires
            self.wf(),
            self.done() == self.all().len(),
            old(store).wf(),
        ensures
            final(store).wf(),
            final(store).same_file(old(store)),
            final(store)@ == without_keys(old(store)@, self.listed()),
            final(store).pending() == old(store).pending_after(
                removal_lines(old(store)@, self.listed()),
            ),
            r == self.count(),
    {
        let ghost all = views(self.keys@);
        let mut i: usize = 0;
        assert(all.take(0) =~= Seq::empty());
        while i < self.keys.len()
            invariant
                i <= self.keys@.len(),
                all == views(self.keys@),
                store.wf(),
                store.same_file(old(store)),
                store@ == without_keys(old(store)@, all.take(i as int)),
                store.pending() == old(store).pending_after(
                    removal_lines(old(store)@, all.take(i as int)),
                ),
            decreases self.keys@.len() - i,
        {
            assert(all.take(i + 1).drop_last() =~= all.take(i as int));
            assert(all[i as int] == self.keys@[i as int]@);
            let ghost before = store@;
            let ghost lines = removal_lines(old(store)@, all.take(i as int));
            let _ = store.remove(&self.keys[i]);
            assert(store@ =~= before.remove(self.keys@[i as int]@));
            assert(lines.push(removal_line(self.keys@[i as int]@)).drop_last() =~= lines);
            i += 1;
        }
        assert(all.take(i as int) =~= all);
        self.migrated
    }
}

fn copy_texts(v: &Vec<String>) -> (r: Vec<String>)
    ensures
        views(r@) == views(v@),
{
    let mut out: Vec<String> = Vec::new();
    assert(views(out@) =~= views(v@).take(0));
    for i in 0..v.len()
        invariant
            views(out@) == views(v@).take(i as int),
    {
        let text = v[i].clone();
        proof {
            lemma_views_push(out@, text);
            assert(views(v@).take(i + 1) =~= views(v@).take(i as int).push(text@));
        }
        out.push(text);
    }
    assert(views(v@).take(v@.len() as int) =~= views(v@));
    out
}

/// Starts to hand the keys over to another node.
fn begin_transfer(store: &NoVoHT, keys: Vec<String>) -> (r: KeyTransfer)
    requires
        store.wf(),
    ensures
        r.begins(store, views(keys@)),
{
    let entries = store.entries();
    let ghost order = store.order();
    let ghost ks = views(keys@);
    let mut requests: Vec<KeyRequest> = Vec::new();
    assert(order.take(0) =~= Seq::empty());
    assert(request_views(requests@) =~= Seq::empty());
    for i in 0..entries.len()
        invariant
            order == store.order(),
            ks == views(keys@),
            entries@.len() == order.len(),
            forall|j: int|
                0 <= j < entries@.len() ==> (#[trigger] entries@[j]).0@ == order[j] && entries@[j].1@
                    == store@[order[j]],
            request_views(requests@) == transfer_requests(order.take(i as int), store@, ks),
    {
        assert(order.take(i + 1).drop_last() =~= order.take(i as int));
        let key = &entries[i].0;
        let value = &entries[i].1;
        assert(entries@[i as int].0@ == order[i as int]);
        if is_listed(key, &keys) {
            let request = KeyRequest {
                key: key.clone(),
                request: make_write(OPC_INSERT, key, &utf8_bytes(value)),
            };
            assert(request_views(requests@.push(request)) =~= request_views(requests@).push(
                request@,
            ));
            requests.push(request);
        }
    }
    assert(order.take(order.len() as int) =~= order);
    KeyTransfer { keys, requests, position: 0, migrated: 0 }
}

fn is_listed(key: &str, keys: &Vec<String>) -> (r: bool)
    ensures
        r == views(keys@).contains(key@),
{
    for i in 0..keys.len()
        invariant
            forall|j: int| 0 <= j < i ==> #[trigger] views(keys@)[j] != key@,
    {
        assert(views(keys@)[i as int] == keys@[i as int]@);
        if same_text(&keys[i], key) {
            return true;
        }
    }
    false
}

// ── A migration under way ───────────────────────────────────────────────

/// What is to be done next in a migration.
#[derive(Debug)]
pub enum MigrationStep {
    /// Send a request to a node.
    Send(Outgoing),
    /// Nothing: the migration is over. So many keys were stored elsewhere.
    Done(u64),
}

/// How many keys have a target.
pub open spec fn targeted(targets: Seq<Option<(Seq<char>, u16)>>) -> nat
    decreases targets.len(),
{
    if targets.len() == 0 {
        0
    } else {
        targeted(targets.drop_last()) + (if targets.last() is Some {
            1nat
        } else {
            0nat
        })
    }
}

/// The first action from `from` on that has anything to send for the given
/// store, or the count of actions.
pub open spec fn next_active(plan: Seq<MigrationAction>, from: int, store: &NoVoHT) -> int
    decreases plan.len() - from,
{
    if from >= plan.len() {
        plan.len() as int
    } else if transfer_requests(store.order(), store@, views(plan[from].keys@)).len() > 0 {
        from
    } else {
        next_active(plan, from + 1, store)
    }
}

/// A migration under way: the actions of the plan are carried out one after the
/// other. The keys of an action leave the store once all its requests were
/// answered; an action that fails is given up, and its keys stay.
#[derive(Debug)]
pub struct MigrationRun {
    plan: Vec<MigrationAction>,
    queued: usize,
    index: usize,
    transfer: KeyTransfer,
    migrated: u64,
}

impl MigrationRun {
    /// While an action is under way, it has a request that is not answered yet.
    pub closed spec fn wf(&self) -> bool {
        &&& self.index <= self.plan@.len()
        &&& self.transfer.wf()
        &&& self.index < self.plan@.len() ==> {
            &&& self.transfer.done() < self.transfer.all().len()
            &&& self.transfer.listed() == views(self.plan@[self.index as int].keys@)
        }
    }

    /// The actions.
    pub closed spec fn actions(&self) -> Seq<MigrationAction> {
        self.plan@
    }

    /// How many keys the actions list.
    pub closed spec fn queued_keys(&self) -> nat {
        self.queued as nat
    }

    /// The action that is under way, or the count of actions where none is.
    pub closed spec fn at(&self) -> int {
        self.index as int
    }

    /// The hand-over that is under way.
    pub closed spec fn hand_over(&self) -> KeyTransfer {
        self.transfer
    }

    /// How many keys were stored elsewhere, in the actions that are complete.
    pub closed spec fn stored_count(&self) -> u64 {
        self.migrated
    }

    /// Whether this is the same migration, which goes on with the first action
    /// from `from` on that has anything to send, and whether the step says so.
    pub open spec fn goes_on(
        &self,
        before: &MigrationRun,
        from: int,
        store: &NoVoHT,
        stored: u64,
        step: MigrationStep,
    ) -> bool {
        let at = next_active(before.actions(), from, store);
        &&& self.wf()
        &&& self.actions() == before.actions()
        &&& self.queued_keys() == before.queued_keys()
        &&& self.at() == at
        &&& self.stored_count() == stored
        &&& if at < self.actions().len() {
            let action = self.actions()[at];
            &&& self.hand_over().begins(store, views(action.keys@))
            &&& step matches MigrationStep::Send(message) && message@ == (
                action.target_host@,
                self.hand_over().all()[0].1,
            )
        } else {
            step == MigrationStep::Done(stored)
        }
    }

    fn new(plan: Vec<MigrationAction>, queued: usize) -> (r: MigrationRun)
        ensures
            r.wf(),
            r.actions() == plan@,
            r.queued_keys() == queued,
            r.at() == plan@.len(),
            r.stored_count() == 0,
    {
        let index: usize = plan.len();
        MigrationRun {
            plan,
            queued,
            index,
            transfer: KeyTransfer {
                keys: Vec::new(),
                requests: Vec::new(),
                position: 0,
                migrated: 0,
            },
            migrated: 0,
        }
    }

    /// The number of keys queued for migration.
    pub fn queued(&self) -> (r: usize)
        ensures
            r == self.queued_keys(),
    {
        self.queued
    }

    /// The actions of the plan.
    pub fn plan(&self) -> (r: &Vec<MigrationAction>)
        ensures
            r@ == self.actions(),
    {
        &self.plan
    }

    fn resume(&mut self, store: &NoVoHT, from: usize) -> (r: MigrationStep)
        requires
            store.wf(),
            from <= old(self).actions().len(),
        ensures
            final(self).goes_on(old(self), from as int, store, old(self).stored_count(), r),
    {
        let ghost first = next_active(self.plan@, from as int, store);
        self.index = from;
        while self.index < self.plan.len()
            invariant
                store.wf(),
                self.plan@ == old(self).plan@,
                self.queued == old(self).queued,
                self.migrated == old(self).migrated,
                self.index <= self.plan@.len(),
                next_active(self.plan@, self.index as int, store) == first,
                first == next_active(old(self).actions(), from as int, store),
            ensures
                self.index == self.plan@.len(),
            decreases self.plan@.len() - self.index,
        {
            let transfer = begin_transfer(store, copy_texts(&self.plan[self.index].keys));
            match transfer.next_request() {
                Some(next) => {
                    let message = Outgoing {
                        host: self.plan[self.index].target_host.clone(),
                        request: next.request.clone(),
                    };
                    self.transfer = transfer;
                    return MigrationStep::Send(message);
                },
                None => {},
            }
            self.index = self.index + 1;
        }
        self.transfer = KeyTransfer {
            keys: Vec::new(),
            requests: Vec::new(),
            position: 0,
            migrated: 0,
        };
        MigrationStep::Done(self.migrated)
    }

    /// Starts with the first action.
    pub fn start(&mut self, store: &NoVoHT) -> (r: MigrationStep)
        requires
            old(self).wf(),
            store.wf(),
        ensures
            final(self).goes_on(old(self), 0, store, old(self).stored_count(), r),
    {
        self.resume(store, 0)
    }

    /// Takes in the response to the request that was sent. After the last one
    /// of an action its keys leave the store.
    pub fn on_response(&mut self, store: &mut NoVoHT, response: &ZPack) -> (r: MigrationStep)
        requires
            old(self).wf(),
            old(self).at() < old(self).actions().len(),
            old(store).wf(),
        ensures
            final(store).wf(),
            final(store).same_file(old(store)),
            ({
                let before = old(self).hand_over();
                let action = old(self).actions()[old(self).at()];
                let keys = views(action.keys@);
                let count = (before.count() + (if is_stored(response@) {
                    1nat
                } else {
                    0nat
                })) as nat;
                if before.done() + 1 < before.all().len() {
                    &&& *final(store) == *old(store)
                    &&& final(self).wf()
                    &&& final(self).actions() == old(self).actions()
                    &&& final(self).queued_keys() == old(self).queued_keys()
                    &&& final(self).at() == old(self).at()
                    &&& final(self).stored_count() == old(self).stored_count()
                    &&& final(self).hand_over().all() == before.all()
                    &&& final(self).hand_over().done() == before.done() + 1
                    &&& final(self).hand_over().count() == count
                    &&& r matches MigrationStep::Send(message) && message@ == (
                        action.target_host@,
                        before.all()[before.done() as int + 1].1,
                    )
                } else {
                    &&& final(store)@ == without_keys(old(store)@, keys)
                    &&& final(store).pending() == old(store).pending_after(
                        removal_lines(old(store)@, keys),
                    )
                    &&& final(self).goes_on(
                        old(self),
                        old(self).at() + 1,
                        final(store),
                        old(self).stored_count().wrapping_add(count as u64),
                        r,
                    )
                }
            }),
    {
        self.transfer.on_response(response);
        match self.transfer.next_request() {
            Some(next) => {
                return MigrationStep::Send(
                    Outgoing {
                        host: self.plan[self.index].target_host.clone(),
                        request: next.request.clone(),
                    },
                );
            },
            None => {},
        }
        let count: usize = self.transfer.finish(store);
        self.migrated = self.migrated.wrapping_add(count as u64);
        let total: usize = self.plan.len();
        assert(self.index < total);
        let from: usize = self.index + 1;
        self.resume(store, from)
    }

    /// What is reported where the request that was to be sent was not.
    pub fn failure(&self, error: &ZhtError) -> (r: String)
        requires
            self.wf(),
            self.at() < self.actions().len(),
        ensures
            r@ == failure_text(self.hand_over().all()[self.hand_over().done() as int].0, error@),
    {
        self.transfer.on_failure(error)
    }

    /// Gives up the action whose request could not be sent: its keys stay in the
    /// store, and the next action follows.
    pub fn on_failure(&mut self, store: &NoVoHT) -> (r: MigrationStep)
        requires
            old(self).wf(),
            old(self).at() < old(self).actions().len(),
            store.wf(),
        ensures
            final(self).goes_on(
                old(self),
                old(self).at() + 1,
                store,
                old(self).stored_count(),
                r,
            ),
    {
        let total: usize = self.plan.len();
        assert(self.index < total);
        let from: usize = self.index + 1;
        self.resume(store, from)
    }
}

// ── The manager ─────────────────────────────────────────────────────────

/// Manages data migration when cluster membership changes.
#[derive(Debug)]
pub struct MigrationManager {
    migration_enabled: bool,
    migrating: bool,
}

impl MigrationManager {
    /// Whether migration is enabled.
    pub closed spec fn enabled(&self) -> bool {
        self.migration_enabled
    }

    /// Whether a migration is in progress.
    pub closed spec fn in_progress(&self) -> bool {
        self.migrating
    }

    /// Create a new migration manager.
    pub fn new(enabled: bool) -> (r: MigrationManager)
        ensures
            r.enabled() == enabled,
            !r.in_progress(),
    {
        MigrationManager { migration_enabled: enabled, migrating: false }
    }

    /// Check if a migration is currently in progress.
    pub fn is_migrating(&self) -> (r: bool)
        ensures
            r == self.in_progress(),
    {
        self.migrating
    }

    /// Check if migration is enabled.
    pub fn is_migration_enabled(&self) -> (r: bool)
        ensures
            r == self.enabled(),
    {
        self.migration_enabled
    }

    /// Check if any keys need to be migrated, and prepare to migrate them.
    ///
    /// The migration that comes back says how many keys are queued. Where there
    /// are any, it is in progress until [`MigrationManager::finish_migration`].
    /// Where migration is disabled or already in progress, there are none.
    pub fn check_and_migrate(&mut self, membership: &MembershipManager, store: &NoVoHT) -> (r:
        MigrationRun)
        requires
            store.wf(),
        ensures
            r.wf(),
            r.at() == r.actions().len(),
            r.stored_count() == 0,
            final(self).enabled() == old(self).enabled(),
            !old(self).enabled() || old(self).in_progress() ==> {
                &&& r.actions().len() == 0
                &&& r.queued_keys() == 0
                &&& *final(self) == *old(self)
            },
            old(self).enabled() && !old(self).in_progress() ==> {
                let targets = check_targets(
                    store.order(),
                    alive_nodes(membership@),
                    membership.me(),
                );
                &&& is_plan(r.actions(), store.order(), targets)
                &&& r.queued_keys() == targeted(targets)
                &&& final(self).in_progress() == (r.actions().len() > 0)
            },
            old(self).enabled() && !old(self).in_progress() ==> {
                let nodes = alive_nodes(membership@);
                &&& forall|key: Seq<char>| #[trigger]
                    store@.contains_key(key) && nodes.len() > 0 ==> {
                        let node = nodes[hash_bytes(encode_utf8(key)) % nodes.len() as int];
                        hands_over(r.actions(), key, node) <==> node != membership.me()
                    }
                &&& forall|key: Seq<char>, node: (Seq<char>, u16)| #[trigger]
                    hands_over(r.actions(), key, node) ==> store@.contains_key(key) && nodes.len()
                        > 0 && node == nodes[hash_bytes(encode_utf8(key)) % nodes.len() as int]
                &&& r.queued_keys() == listed_count(r.actions())
            },
    {
        if !self.migration_enabled || self.migrating {
            return MigrationRun::new(Vec::new(), 0);
        }
        let alive = membership.active_members();
        let keys = store.keys();
        let ghost ks = views(keys@);
        let ghost nodes = host_views(alive@);
        let me = membership.self_node();
        let mut targets: Vec<Option<HostEntity>> = Vec::new();
        let mut queued: usize = 0;
        for i in 0..keys.len()
            invariant
                ks == views(keys@),
                nodes == host_views(alive@),
                me@ == membership.me(),
                target_views(targets@) == check_targets(ks.take(i as int), nodes, me@),
                queued == targeted(target_views(targets@)),
                queued <= i,
        {
            let target = match resolve_owner(&keys[i], &alive) {
                Some(node) => if node != *me {
                    Some(node)
                } else {
                    None
                },
                None => None,
            };
            if target.is_some() {
                queued += 1;
            }
            let ghost before = targets@;
            targets.push(target);
            assert(ks[i as int] == keys@[i as int]@);
            assert(target_views(targets@) =~= check_targets(ks.take(i + 1), nodes, me@)) by {
                assert(target_views(targets@) =~= target_views(before).push(
                    check_target(ks[i as int], nodes, me@),
                ));
                assert(ks.take(i + 1) =~= ks.take(i as int).push(ks[i as int]));
            }
            assert(target_views(targets@).drop_last() =~= target_views(before));
        }
        assert(ks.take(ks.len() as int) =~= ks);
        let plan = group_by_target(&keys, &targets);
        proof {
            store.lemma_order();
            law_queued_keys_are_listed(plan@, ks, check_targets(ks, nodes, me@));
            assert forall|key: Seq<char>, node: (Seq<char>, u16)| hands_over(plan@, key, node) <==> (
            store@.contains_key(key) && nodes.len() > 0 && node == nodes[hash_bytes(encode_utf8(key))
                % nodes.len() as int] && node != me@) by {
                law_check_moves_keys_to_owners(plan@, ks, nodes, me@, key, node);
                lemma_listed_somewhere(plan@, key, node);
                assert(ks.to_set().contains(key) <==> store@.dom().contains(key));
            }
        }
        if plan.len() > 0 {
            self.migrating = true;
        }
        MigrationRun::new(plan, queued)
    }

    /// Ends the migration that is in progress.
    pub fn finish_migration(&mut self)
        ensures
            final(self).enabled() == old(self).enabled(),
            !final(self).in_progress(),
    {
        self.migrating = false;
    }

    /// Starts to hand keys over to another node.
    pub fn migrate_keys_for_node(&self, store: &NoVoHT, keys: Vec<String>) -> (r: KeyTransfer)
        requires
            store.wf(),
        ensures
            r.begins(store, views(keys@)),
    {
        begin_transfer(store, keys)
    }

    /// Get all keys that belong to a specific node (by hash).
    pub fn get_keys_for_node(
        &self,
        membership: &MembershipManager,
        store: &NoVoHT,
        host: &str,
        port: u16,
    ) -> (r: Vec<String>)
        requires
            store.wf(),
        ensures
            views(r@) == keys_for(
                store.order(),
                store.order().map_values(|k: Seq<char>| owner(k, alive_nodes(membership@))),
                (host@, port),
            ),
            forall|key: Seq<char>| #[trigger]
                views(r@).contains(key) <==> {
                    let nodes = alive_nodes(membership@);
                    &&& store@.contains_key(key)
                    &&& nodes.len() > 0
                    &&& nodes[hash_bytes(encode_utf8(key)) % nodes.len() as int] == (host@, port)
                },
    {
        let target = HostEntity { host: host.to_owned(), port };
        let keys = store.keys();
        let alive = membership.active_members();
        let ghost ks = views(keys@);
        let ghost nodes = host_views(alive@);
        let ghost owners = ks.map_values(|k: Seq<char>| owner(k, nodes));
        let mut out: Vec<String> = Vec::new();
        assert(ks.take(0) =~= Seq::empty());
        assert(views(out@) =~= Seq::empty());
        for i in 0..keys.len()
            invariant
                ks == views(keys@),
                nodes == host_views(alive@),
                owners == ks.map_values(|k: Seq<char>| owner(k, nodes)),
                target@ == (host@, port),
                views(out@) == keys_for(ks.take(i as int), owners.take(i as int), (host@, port)),
        {
            assert(ks[i as int] == keys@[i as int]@);
            proof {
                lemma_keys_for_step(ks, owners, i as int, (host@, port));
            }
            let owned = match resolve_owner(&keys[i], &alive) {
                Some(node) => node == target,
                None => false,
            };
            if owned {
                let key = keys[i].clone();
                proof {
                    lemma_views_push(out@, key);
                }
                out.push(key);
            }
        }
        assert(ks.take(ks.len() as int) =~= ks);
        assert(owners.take(ks.len() as int) =~= owners);
        proof {
            store.lemma_order();
            assert forall|key: Seq<char>| #[trigger] views(out@).contains(key) <==> (
            store@.contains_key(key) && nodes.len() > 0 && nodes[hash_bytes(encode_utf8(key))
                % nodes.len() as int] == (host@, port)) by {
                lemma_keys_for_contains(ks, owners, (host@, port), key);
                assert(ks.to_set().contains(key) <==> store@.dom().contains(key));
                if store@.contains_key(key) {
                    let i = choose|i: int| 0 <= i < ks.len() && ks[i] == key;
                    assert(owners[i] == owner(key, nodes));
                }
            }
        }
        out
    }

    /// Calculate a migration plan given old and new member lists.
    ///
    /// Returns a list of `MigrationAction` describing which keys should
    /// move from this node to which target node.
    pub fn calculate_migration_plan(
        &self,
        membership: &MembershipManager,
        store: &NoVoHT,
        old_members: &Vec<HostEntity>,
        new_members: &Vec<HostEntity>,
    ) -> (r: Vec<MigrationAction>)
        requires
            store.wf(),
        ensures
            old_members@.len() == 0 || new_members@.len() == 0 ==> r@.len() == 0,
            old_members@.len() > 0 && new_members@.len() > 0 ==> is_plan(
                r@,
                store.order(),
                plan_targets(
                    store.order(),
                    host_views(old_members@),
                    host_views(new_members@),
                    membership.me(),
                ),
            ),
            old_members@.len() > 0 && new_members@.len() > 0 ==> {
                &&& forall|key: Seq<char>| #[trigger]
                    store@.contains_key(key) ==> {
                        let hash = hash_bytes(encode_utf8(key));
                        let before = old_members@[hash % old_members@.len() as int]@;
                        let after = new_members@[hash % new_members@.len() as int]@;
                        hands_over(r@, key, after) <==> after != before && after != membership.me()
                    }
                &&& forall|key: Seq<char>, node: (Seq<char>, u16)| #[trigger]
                    hands_over(r@, key, node) ==> store@.contains_key(key) && node
                        == new_members@[hash_bytes(encode_utf8(key)) % new_members@.len() as int]@
            },
    {
        if old_members.len() == 0 || new_members.len() == 0 {
            return Vec::new();
        }
        let keys = store.keys();
        let ghost ks = views(keys@);
        let ghost old_nodes = host_views(old_members@);
        let ghost new_nodes = host_views(new_members@);
        let me = membership.self_node();
        let mut targets: Vec<Option<HostEntity>> = Vec::new();
        for i in 0..keys.len()
            invariant
                ks == views(keys@),
                old_nodes == host_views(old_members@),
                new_nodes == host_views(new_members@),
                me@ == membership.me(),
                target_views(targets@) == plan_targets(
                    ks.take(i as int),
                    old_nodes,
                    new_nodes,
                    me@,
                ),
        {
            let old_owner = resolve_owner(&keys[i], old_members);
            let new_owner = resolve_owner(&keys[i], new_members);
            let target = match new_owner {
                Some(node) => {
                    let unchanged = match old_owner {
                        Some(before) => before == node,
                        None => false,
                    };
                    if !unchanged && node != *me {
                        Some(node)
                    } else {
                        None
                    }
                },
                None => None,
            };
            let ghost before = targets@;
            targets.push(target);
            assert(ks[i as int] == keys@[i as int]@);
            assert(target_views(targets@) =~= plan_targets(ks.take(i + 1), old_nodes, new_nodes, me@))
                by {
                assert(target_views(targets@) =~= target_views(before).push(
                    plan_target(ks[i as int], old_nodes, new_nodes, me@),
                ));
                assert(ks.take(i + 1) =~= ks.take(i as int).push(ks[i as int]));
            }
        }
        assert(ks.take(ks.len() as int) =~= ks);
        let plan = group_by_target(&keys, &targets);
        proof {
            store.lemma_order();
            assert forall|key: Seq<char>, node: (Seq<char>, u16)| hands_over(plan@, key, node) <==> {
                let hash = hash_bytes(encode_utf8(key));
                let before = old_members@[hash % old_members@.len() as int]@;
                let after = new_members@[hash % new_members@.len() as int]@;
                store@.contains_key(key) && node == after && after != before && after != me@
            } by {
                law_plan_moves_keys_to_new_owners(plan@, ks, old_nodes, new_nodes, me@, key, node);
                lemma_listed_somewhere(plan@, key, node);
                assert(ks.to_set().contains(key) <==> store@.dom().contains(key));
            }
        }
        plan
    }

    /// Bulk insert migrated key-value pairs into local storage. A pair with an
    /// empty key is left out.
    pub fn receive_migrated_keys(&self, store: &mut NoVoHT, keys_values: &Vec<(String, String)>)
        requires
            old(store).wf(),
        ensures
            final(store).wf(),
            final(store).same_file(old(store)),
            final(store)@ == with_pairs(old(store)@, pair_views(keys_values@)),
            final(store).pending() == old(store).pending_after(pair_lines(pair_views(keys_values@))),
    {
        let ghost all = pair_views(keys_values@);
        let mut i: usize = 0;
        assert(all.take(0) =~= Seq::empty());
        while i < keys_values.len()
            invariant
                i <= keys_values@.len(),
                all == pair_views(keys_values@),
                store.wf(),
                store.same_file(old(store)),
                store@ == with_pairs(old(store)@, all.take(i as int)),
                store.pending() == old(store).pending_after(pair_lines(all.take(i as int))),
            decreases keys_values@.len() - i,
        {
            assert(all.take(i + 1).drop_last() =~= all.take(i as int));
            assert(all[i as int] == (keys_values@[i as int].0@, keys_values@[i as int].1@));
            let ghost lines = pair_lines(all.take(i as int));
            let _ = store.put(&keys_values[i].0, &keys_values[i].1);
            assert(lines.push(entry_line(all[i as int].0, all[i as int].1)).drop_last() =~= lines);
            i += 1;
        }
        assert(all.take(i as int) =~= all);
    }
}

/// The views of key-value pairs.
pub open spec fn pair_views(v: Seq<(String, String)>) -> Seq<(Seq<char>, Seq<char>)> {
    v.map_values(|p: (String, String)| (p.0@, p.1@))
}

/// The table with key-value pairs set, one after the other, without those whose
/// key is empty.
pub open spec fn with_pairs(m: Map<Seq<char>, Seq<char>>, pairs: Seq<(Seq<char>, Seq<char>)>) -> Map<
    Seq<char>,
    Seq<char>,
>
    decreases pairs.len(),
{
    if pairs.len() == 0 {
        m
    } else {
        let before = with_pairs(m, pairs.drop_last());
        if pairs.last().0.len() == 0 {
            before
        } else {
            before.insert(pairs.last().0, pairs.last().1)
        }
    }
}

/// The lines that record the pairs, without those whose key is empty.
pub open spec fn pair_lines(pairs: Seq<(Seq<char>, Seq<char>)>) -> Seq<Seq<char>>
    decreases pairs.len(),
{
    if pairs.len() == 0 {
        Seq::empty()
    } else {
        let before = pair_lines(pairs.drop_last());
        if pairs.last().0.len() == 0 {
            before
        } else {
            before.push(entry_line(pairs.last().0, pairs.last().1))
        }
    }
}

// ── Laws ────────────────────────────────────────────────────────────────

/// Where the nodes stay the same, no key has to move.
pub proof fn law_same_nodes_no_moves(
    plan: Seq<MigrationAction>,
    keys: Seq<Seq<char>>,
    nodes: Seq<(Seq<char>, u16)>,
    me: (Seq<char>, u16),
)
    requires
        is_plan(plan, keys, plan_targets(keys, nodes, nodes, me)),
    ensures
        plan.len() == 0,
{
    let targets = plan_targets(keys, nodes, nodes, me);
    if plan.len() > 0 {
        lemma_keys_for_none(keys, targets, plan[0].target_host@);
        assert(views(plan[0].keys@).len() == 0);
    }
}

proof fn lemma_keys_for_contains(
    keys: Seq<Seq<char>>,
    targets: Seq<Option<(Seq<char>, u16)>>,
    target: (Seq<char>, u16),
    key: Seq<char>,
)
    requires
        keys.len() == targets.len(),
    ensures
        keys_for(keys, targets, target).contains(key) <==> exists|i: int|
            0 <= i < keys.len() && keys[i] == key && #[trigger] targets[i] == Some(target),
    decreases keys.len(),
{
    let all = keys_for(keys, targets, target);
    if keys.len() > 0 {
        let k0 = keys.drop_last();
        let t0 = targets.drop_last();
        let before = keys_for(k0, t0, target);
        lemma_keys_for_contains(k0, t0, target, key);
        if all.contains(key) {
            let p = choose|p: int| 0 <= p < all.len() && all[p] == key;
            if p < before.len() {
                assert(before[p] == key);
                let i = choose|i: int|
                    0 <= i < k0.len() && k0[i] == key && #[trigger] t0[i] == Some(target);
                assert(keys[i] == key && targets[i] == Some(target));
            } else {
                let last = keys.len() - 1;
                assert(keys[last] == key && targets[last] == Some(target));
            }
        }
        if exists|i: int| 0 <= i < keys.len() && keys[i] == key && #[trigger] targets[i] == Some(target) {
            let i = choose|i: int|
                0 <= i < keys.len() && keys[i] == key && #[trigger] targets[i] == Some(target);
            if i < k0.len() {
                assert(k0[i] == key && t0[i] == Some(target));
                let p = choose|p: int| 0 <= p < before.len() && before[p] == key;
                assert(all[p] == key);
            } else {
                assert(all.last() == key);
            }
        }
    }
}

/// A plan lists every key that has a target under that target, and under no
/// other: nothing is forgotten and nothing is moved twice.
pub proof fn law_plan_lists_each_key_once(
    plan: Seq<MigrationAction>,
    keys: Seq<Seq<char>>,
    targets: Seq<Option<(Seq<char>, u16)>>,
    i: int,
)
    requires
        keys.len() == targets.len(),
        keys.no_duplicates(),
        is_plan(plan, keys, targets),
        0 <= i < keys.len(),
    ensures
        forall|a: int|
            0 <= a < plan.len() ==> (views((#[trigger] plan[a]).keys@).contains(keys[i]) <==> Some(
                plan[a].target_host@,
            ) == targets[i]),
        targets[i] is Some ==> exists|a: int|
            0 <= a < plan.len() && views((#[trigger] plan[a]).keys@).contains(keys[i]),
{
    assert forall|a: int| 0 <= a < plan.len() implies (views((#[trigger] plan[a]).keys@).contains(keys[i])
        <==> Some(plan[a].target_host@) == targets[i]) by {
        lemma_keys_for_contains(keys, targets, plan[a].target_host@, keys[i]);
    }
    if targets[i] is Some {
        let a = choose|a: int| 0 <= a < plan.len() && Some((#[trigger] plan[a]).target_host@) == targets[i];
        assert(views(plan[a].keys@).contains(keys[i]));
    }
}

/// How many keys go to the given nodes.
spec fn count_for(
    keys: Seq<Seq<char>>,
    targets: Seq<Option<(Seq<char>, u16)>>,
    nodes: Seq<(Seq<char>, u16)>,
) -> nat
    decreases nodes.len(),
{
    if nodes.len() == 0 {
        0
    } else {
        count_for(keys, targets, nodes.drop_last()) + keys_for(keys, targets, nodes.last()).len()
    }
}

proof fn lemma_count_step(
    keys: Seq<Seq<char>>,
    targets: Seq<Option<(Seq<char>, u16)>>,
    nodes: Seq<(Seq<char>, u16)>,
)
    requires
        keys.len() == targets.len(),
        keys.len() > 0,
        nodes.no_duplicates(),
    ensures
        count_for(keys, targets, nodes) == count_for(keys.drop_last(), targets.drop_last(), nodes) + (
        if targets.last() is Some && nodes.contains(targets.last()->0) {
            1nat
        } else {
            0nat
        }),
    decreases nodes.len(),
{
    if nodes.len() > 0 {
        let rest = nodes.drop_last();
        lemma_count_step(keys, targets, rest);
        if targets.last() is Some {
            let t = targets.last()->0;
            if nodes.contains(t) && t != nodes.last() {
                let i = choose|i: int| 0 <= i < nodes.len() && nodes[i] == t;
                assert(rest[i] == t);
            }
            if rest.contains(t) {
                let i = choose|i: int| 0 <= i < rest.len() && rest[i] == t;
                assert(nodes[i] == t);
                assert(nodes[i] != nodes[nodes.len() - 1]);
            }
            if t == nodes.last() {
                assert(nodes[nodes.len() - 1] == t);
            }
        }
    }
}

proof fn lemma_count_covers(
    keys: Seq<Seq<char>>,
    targets: Seq<Option<(Seq<char>, u16)>>,
    nodes: Seq<(Seq<char>, u16)>,
)
    requires
        keys.len() == targets.len(),
        nodes.no_duplicates(),
        forall|i: int| 0 <= i < targets.len() && (#[trigger] targets[i]) is Some ==> nodes.contains(
            targets[i]->0,
        ),
    ensures
        count_for(keys, targets, nodes) == targeted(targets),
    decreases keys.len(),
{
    if keys.len() == 0 {
        lemma_count_none(keys, targets, nodes);
    } else {
        let t0 = targets.drop_last();
        assert forall|i: int| 0 <= i < t0.len() && (#[trigger] t0[i]) is Some implies nodes.contains(
            t0[i]->0,
        ) by {
            assert(targets[i] == t0[i]);
        }
        assert(targets[targets.len() - 1] is Some ==> nodes.contains(targets.last()->0));
        lemma_count_covers(keys.drop_last(), t0, nodes);
        lemma_count_step(keys, targets, nodes);
    }
}

proof fn lemma_count_none(
    keys: Seq<Seq<char>>,
    targets: Seq<Option<(Seq<char>, u16)>>,
    nodes: Seq<(Seq<char>, u16)>,
)
    requires
        keys.len() == 0,
    ensures
        count_for(keys, targets, nodes) == 0,
    decreases nodes.len(),
{
    if nodes.len() > 0 {
        lemma_count_none(keys, targets, nodes.drop_last());
    }
}

/// How many keys the actions of a plan list.
pub open spec fn listed_count(plan: Seq<MigrationAction>) -> nat
    decreases plan.len(),
{
    if plan.len() == 0 {
        0
    } else {
        listed_count(plan.drop_last()) + plan.last().keys@.len()
    }
}

proof fn lemma_listed_count(
    plan: Seq<MigrationAction>,
    keys: Seq<Seq<char>>,
    targets: Seq<Option<(Seq<char>, u16)>>,
)
    requires
        forall|a: int|
            0 <= a < plan.len() ==> views((#[trigger] plan[a]).keys@) == keys_for(
                keys,
                targets,
                plan[a].target_host@,
            ),
    ensures
        listed_count(plan) == count_for(
            keys,
            targets,
            plan.map_values(|a: MigrationAction| a.target_host@),
        ),
    decreases plan.len(),
{
    let nodes = plan.map_values(|a: MigrationAction| a.target_host@);
    if plan.len() > 0 {
        let rest = plan.drop_last();
        assert forall|a: int| 0 <= a < rest.len() implies views((#[trigger] rest[a]).keys@)
            == keys_for(keys, targets, rest[a].target_host@) by {
            assert(plan[a] == rest[a]);
        }
        lemma_listed_count(rest, keys, targets);
        assert(nodes.drop_last() =~= rest.map_values(|a: MigrationAction| a.target_host@));
        assert(views(plan[plan.len() - 1].keys@).len() == plan.last().keys@.len());
    }
}

/// The keys that are queued are the keys that the plan lists: the actions
/// together list as many keys as have a target.
pub proof fn law_queued_keys_are_listed(
    plan: Seq<MigrationAction>,
    keys: Seq<Seq<char>>,
    targets: Seq<Option<(Seq<char>, u16)>>,
)
    requires
        keys.len() == targets.len(),
        is_plan(plan, keys, targets),
    ensures
        listed_count(plan) == targeted(targets),
{
    let nodes = plan.map_values(|a: MigrationAction| a.target_host@);
    assert(nodes.no_duplicates()) by {
        assert forall|a: int, b: int| 0 <= a < nodes.len() && 0 <= b < nodes.len() && a != b implies nodes[a]
            != nodes[b] by {
            assert(nodes[a] == plan[a].target_host@);
            assert(nodes[b] == plan[b].target_host@);
        }
    }
    assert forall|i: int| 0 <= i < targets.len() && (#[trigger] targets[i]) is Some implies nodes.contains(
        targets[i]->0,
    ) by {
        let a = choose|a: int| 0 <= a < plan.len() && Some((#[trigger] plan[a]).target_host@) == targets[i];
        assert(nodes[a] == targets[i]->0);
    }
    lemma_count_covers(keys, targets, nodes);
    lemma_listed_count(plan, keys, targets);
}

/// A node that takes in a handed-over key stores it with its value, as it was.
pub proof fn law_handed_over_unchanged(
    m: Map<Seq<char>, Seq<char>>,
    key: Seq<char>,
    value: Seq<char>,
)
    requires
        key.len() > 0,
    ensures
        stored(m, write_request(OPC_INSERT@, key, encode_utf8(value))) == m.insert(key, value),
{
    law_text_round_trip(key);
    law_text_round_trip(value);
    law_codes_name_operations(encode_utf8(key), encode_utf8(value), Seq::empty());
    let request = write_request(OPC_INSERT@, key, encode_utf8(value));
    assert(request =~= request_for(OPC_INSERT@, encode_utf8(key), encode_utf8(value), Seq::empty()));
}

/// Handing over takes exactly the listed keys out of the table.
pub proof fn law_hand_over_removes_listed(
    m: Map<Seq<char>, Seq<char>>,
    keys: Seq<Seq<char>>,
    key: Seq<char>,
)
    ensures
        without_keys(m, keys).contains_key(key) <==> m.contains_key(key) && !keys.contains(key),
        m.contains_key(key) && !keys.contains(key) ==> without_keys(m, keys)[key] == m[key],
    decreases keys.len(),
{
    if keys.len() > 0 {
        let before = keys.drop_last();
        law_hand_over_removes_listed(m, before, key);
        if keys.contains(key) && key != keys.last() {
            let i = choose|i: int| 0 <= i < keys.len() && keys[i] == key;
            assert(before[i] == key);
        }
        if before.contains(key) {
            let i = choose|i: int| 0 <= i < before.len() && before[i] == key;
            assert(keys[i] == key);
        }
        if key == keys.last() {
            assert(keys[keys.len() - 1] == key);
        }
    }
}

/// This node is no member of its own table, so wherever a member is alive every
/// key has another node as its owner.
pub proof fn law_owner_is_another_node(membership: &MembershipManager, key: Seq<char>)
    requires
        membership.wf(),
        alive_nodes(membership@).len() > 0,
    ensures
        check_target(key, alive_nodes(membership@), membership.me()) == owner(
            key,
            alive_nodes(membership@),
        ),
        owner(key, alive_nodes(membership@)) is Some,
{
    crate::membership::law_owner_is_alive(membership@, key);
}

/// Whether an action of a plan hands a key to a node.
pub open spec fn hands_over(
    plan: Seq<MigrationAction>,
    key: Seq<char>,
    node: (Seq<char>, u16),
) -> bool {
    exists|a: int|
        0 <= a < plan.len() && (#[trigger] plan[a]).target_host@ == node && exists|i: int|
            0 <= i < plan[a].keys@.len() && (#[trigger] plan[a].keys@[i])@ == key
}

proof fn lemma_hands_over(
    plan: Seq<MigrationAction>,
    keys: Seq<Seq<char>>,
    targets: Seq<Option<(Seq<char>, u16)>>,
    key: Seq<char>,
    node: (Seq<char>, u16),
)
    requires
        keys.len() == targets.len(),
        is_plan(plan, keys, targets),
    ensures
        hands_over(plan, key, node) <==> exists|i: int|
            0 <= i < keys.len() && keys[i] == key && #[trigger] targets[i] == Some(node),
{
    lemma_keys_for_contains(keys, targets, node, key);
    if hands_over(plan, key, node) {
        let a = choose|a: int|
            0 <= a < plan.len() && (#[trigger] plan[a]).target_host@ == node && exists|i: int|
                0 <= i < plan[a].keys@.len() && (#[trigger] plan[a].keys@[i])@ == key;
        let i = choose|i: int| 0 <= i < plan[a].keys@.len() && (#[trigger] plan[a].keys@[i])@ == key;
        assert(views(plan[a].keys@)[i] == key);
        assert(keys_for(keys, targets, node).contains(key));
    }
    if exists|i: int| 0 <= i < keys.len() && keys[i] == key && #[trigger] targets[i] == Some(node) {
        let j = choose|j: int| 0 <= j < keys.len() && keys[j] == key && #[trigger] targets[j] == Some(node);
        let a = choose|a: int| 0 <= a < plan.len() && Some((#[trigger] plan[a]).target_host@) == targets[j];
        let listed = views(plan[a].keys@);
        let i = choose|i: int| 0 <= i < listed.len() && listed[i] == key;
        assert(plan[a].keys@[i]@ == key);
    }
}

/// When the nodes change, in whatever way, exactly those keys move whose node
/// changes and does not become this one, and each of them to its new node: the
/// nodes before and after are those at the remainder of the hash of the key by
/// the count of nodes.
pub proof fn law_plan_moves_keys_to_new_owners(
    plan: Seq<MigrationAction>,
    keys: Seq<Seq<char>>,
    old_nodes: Seq<(Seq<char>, u16)>,
    new_nodes: Seq<(Seq<char>, u16)>,
    me: (Seq<char>, u16),
    key: Seq<char>,
    node: (Seq<char>, u16),
)
    requires
        old_nodes.len() > 0,
        new_nodes.len() > 0,
        is_plan(plan, keys, plan_targets(keys, old_nodes, new_nodes, me)),
    ensures
        ({
            let hash = hash_bytes(encode_utf8(key));
            let before = old_nodes[hash % old_nodes.len() as int];
            let after = new_nodes[hash % new_nodes.len() as int];
            (exists|a: int, i: int|
                #![trigger plan[a].keys@[i]]
                0 <= a < plan.len() && plan[a].target_host@ == node && 0 <= i < plan[a].keys@.len()
                    && plan[a].keys@[i]@ == key) <==> keys.contains(key) && node == after && after
                != before && after != me
        }),
{
    let targets = plan_targets(keys, old_nodes, new_nodes, me);
    let hash = hash_bytes(encode_utf8(key));
    let before = old_nodes[hash % old_nodes.len() as int];
    let after = new_nodes[hash % new_nodes.len() as int];
    lemma_hands_over(plan, keys, targets, key, node);
    lemma_listed_somewhere(plan, key, node);
    if keys.contains(key) && node == after && after != before && after != me {
        let i = choose|i: int| 0 <= i < keys.len() && keys[i] == key;
        assert(targets[i] == Some(node));
    }
    if hands_over(plan, key, node) {
        let i = choose|i: int| 0 <= i < keys.len() && keys[i] == key && #[trigger] targets[i] == Some(node);
        assert(targets[i] == plan_target(key, old_nodes, new_nodes, me));
    }
}

proof fn lemma_listed_somewhere(plan: Seq<MigrationAction>, key: Seq<char>, node: (Seq<char>, u16))
    ensures
        hands_over(plan, key, node) <==> exists|a: int, i: int|
            #![trigger plan[a].keys@[i]]
            0 <= a < plan.len() && plan[a].target_host@ == node && 0 <= i < plan[a].keys@.len()
                && plan[a].keys@[i]@ == key,
{
    if hands_over(plan, key, node) {
        let a = choose|a: int|
            0 <= a < plan.len() && (#[trigger] plan[a]).target_host@ == node && exists|i: int|
                0 <= i < plan[a].keys@.len() && (#[trigger] plan[a].keys@[i])@ == key;
        let i = choose|i: int| 0 <= i < plan[a].keys@.len() && (#[trigger] plan[a].keys@[i])@ == key;
        assert(plan[a].keys@[i]@ == key);
    }
    if exists|a: int, i: int|
        #![trigger plan[a].keys@[i]]
        0 <= a < plan.len() && plan[a].target_host@ == node && 0 <= i < plan[a].keys@.len()
            && plan[a].keys@[i]@ == key {
        let (a, i) = choose|a: int, i: int|
            #![trigger plan[a].keys@[i]]
            0 <= a < plan.len() && plan[a].target_host@ == node && 0 <= i < plan[a].keys@.len()
                && plan[a].keys@[i]@ == key;
        assert(plan[a].target_host@ == node && plan[a].keys@[i]@ == key);
    }
}

/// A check hands over exactly the keys whose node is not this one, each to its
/// node: the one at the remainder of the hash of the key by the count of nodes.
pub proof fn law_check_moves_keys_to_owners(
    plan: Seq<MigrationAction>,
    keys: Seq<Seq<char>>,
    nodes: Seq<(Seq<char>, u16)>,
    me: (Seq<char>, u16),
    key: Seq<char>,
    node: (Seq<char>, u16),
)
    requires
        is_plan(plan, keys, check_targets(keys, nodes, me)),
    ensures
        (exists|a: int, i: int|
            #![trigger plan[a].keys@[i]]
            0 <= a < plan.len() && plan[a].target_host@ == node && 0 <= i < plan[a].keys@.len()
                && plan[a].keys@[i]@ == key) <==> keys.contains(key) && nodes.len() > 0 && node
            == nodes[hash_bytes(encode_utf8(key)) % nodes.len() as int] && node != me,
{
    let targets = check_targets(keys, nodes, me);
    lemma_hands_over(plan, keys, targets, key, node);
    lemma_listed_somewhere(plan, key, node);
    if keys.contains(key) && nodes.len() > 0 && node == nodes[hash_bytes(encode_utf8(key))
        % nodes.len() as int] && node != me {
        let i = choose|i: int| 0 <= i < keys.len() && keys[i] == key;
        assert(targets[i] == Some(node));
    }
    if hands_over(plan, key, node) {
        let i = choose|i: int| 0 <= i < keys.len() && keys[i] == key && #[trigger] targets[i] == Some(node);
        assert(targets[i] == check_target(key, nodes, me));
    }
}

/// The keys of a node are those that go to it, in the order in which they are
/// listed.
pub proof fn law_keys_for(
    keys: Seq<Seq<char>>,
    targets: Seq<Option<(Seq<char>, u16)>>,
    f: spec_fn(Seq<char>) -> Option<(Seq<char>, u16)>,
    target: (Seq<char>, u16),
)
    requires
        targets.len() == keys.len(),
        forall|i: int| 0 <= i < keys.len() ==> #[trigger] targets[i] == f(keys[i]),
    ensures
        keys_for(keys, targets, target) == keys.filter(|k: Seq<char>| f(k) == Some(target)),
    decreases keys.len(),
{
    reveal(Seq::filter);
    if keys.len() > 0 {
        let k0 = keys.drop_last();
        let t0 = targets.drop_last();
        assert forall|i: int| 0 <= i < k0.len() implies #[trigger] t0[i] == f(k0[i]) by {
            assert(targets[i] == f(keys[i]));
        }
        law_keys_for(k0, t0, f, target);
        assert(targets[keys.len() - 1] == f(keys[keys.len() - 1]));
    }
}

/// As many keys are queued as belong to another node.
pub proof fn law_queued_count(
    keys: Seq<Seq<char>>,
    nodes: Seq<(Seq<char>, u16)>,
    me: (Seq<char>, u16),
)
    ensures
        targeted(check_targets(keys, nodes, me)) == keys.filter(
            |k: Seq<char>|
                nodes.len() > 0 && nodes[hash_bytes(encode_utf8(k)) % nodes.len() as int] != me,
        ).len(),
    decreases keys.len(),
{
    reveal(Seq::filter);
    let targets = check_targets(keys, nodes, me);
    if keys.len() > 0 {
        law_queued_count(keys.drop_last(), nodes, me);
        assert(targets.drop_last() =~= check_targets(keys.drop_last(), nodes, me));
        assert(targets.last() == check_target(keys.last(), nodes, me));
    }
}

/// Each listed key that is in the store is handed over with its value, once and
/// in the order of the store, as a plain insert; a key that is not there is not.
pub proof fn law_transfer_requests(
    order: Seq<Seq<char>>,
    m: Map<Seq<char>, Seq<char>>,
    keys: Seq<Seq<char>>,
)
    ensures
        transfer_requests(order, m, keys) == order.filter(
            |k: Seq<char>| keys.contains(k),
        ).map_values(
            |k: Seq<char>|
                (
                    k,
                    ZPackView {
                        opcode: encode_utf8("003"@),
                        key: encode_utf8(k),
                        val: encode_utf8(m[k]),
                        newval: Seq::empty(),
                        lease: Seq::empty(),
                        valnull: false,
                    },
                ),
        ),
    decreases order.len(),
{
    reveal(Seq::filter);
    let p = |k: Seq<char>| keys.contains(k);
    let f = |k: Seq<char>|
        (
            k,
            ZPackView {
                opcode: encode_utf8("003"@),
                key: encode_utf8(k),
                val: encode_utf8(m[k]),
                newval: Seq::<u8>::empty(),
                lease: Seq::<u8>::empty(),
                valnull: false,
            },
        );
    if order.len() > 0 {
        law_transfer_requests(order.drop_last(), m, keys);
    }
    assert(transfer_requests(order, m, keys) =~= order.filter(p).map_values(f));
}

/// The removals that are recorded are those of the listed keys that are there,
/// each once.
pub proof fn law_removal_lines(m: Map<Seq<char>, Seq<char>>, keys: Seq<Seq<char>>)
    requires
        keys.no_duplicates(),
    ensures
        removal_lines(m, keys) == keys.filter(|k: Seq<char>| m.contains_key(k)).map_values(
            |k: Seq<char>| seq!['~'] + k + seq!['\t'],
        ),
    decreases keys.len(),
{
    reveal(Seq::filter);
    reveal_strlit("~");
    reveal_strlit("\t");
    let p = |k: Seq<char>| m.contains_key(k);
    let f = |k: Seq<char>| seq!['~'] + k + seq!['\t'];
    if keys.len() > 0 {
        let before = keys.drop_last();
        law_removal_lines(m, before);
        law_hand_over_removes_listed(m, before, keys.last());
        if before.contains(keys.last()) {
            let i = choose|i: int| 0 <= i < before.len() && before[i] == keys.last();
            assert(keys[i] == keys[keys.len() - 1]);
        }
        assert(removal_line(keys.last()) =~= f(keys.last()));
    }
    assert(removal_lines(m, keys) =~= keys.filter(p).map_values(f));
}

/// A received pair is stored under its key and nothing else changes; a pair
/// without a key is left out. Pairs are taken in one after the other.
pub proof fn law_pairs_are_stored_in_order(
    m: Map<Seq<char>, Seq<char>>,
    pairs: Seq<(Seq<char>, Seq<char>)>,
    key: Seq<char>,
    value: Seq<char>,
)
    ensures
        with_pairs(m, Seq::empty()) == m,
        key.len() > 0 ==> with_pairs(m, pairs.push((key, value))) == with_pairs(m, pairs).insert(
            key,
            value,
        ),
        key.len() == 0 ==> with_pairs(m, pairs.push((key, value))) == with_pairs(m, pairs),
        pair_lines(Seq::empty()) == Seq::<Seq<char>>::empty(),
        key.len() > 0 ==> pair_lines(pairs.push((key, value))) == pair_lines(pairs).push(
            key + seq!['\t'] + value + seq!['\t'],
        ),
        key.len() == 0 ==> pair_lines(pairs.push((key, value))) == pair_lines(pairs),
{
    reveal_strlit("\t");
    assert(pairs.push((key, value)).drop_last() =~= pairs);
    assert(entry_line(key, value) =~= key + seq!['\t'] + value + seq!['\t']);
}

/// A migration goes on with the first action that has a listed key in the store.
pub proof fn law_next_active(plan: Seq<MigrationAction>, from: int, store: &NoVoHT)
    requires
        0 <= from <= plan.len(),
    ensures
        ({
            let at = next_active(plan, from, store);
            &&& from <= at <= plan.len()
            &&& at < plan.len() ==> exists|i: int|
                0 <= i < store.order().len() && views(plan[at].keys@).contains(
                    #[trigger] store.order()[i],
                )
            &&& forall|b: int, i: int|
                from <= b < at && 0 <= i < store.order().len() ==> !views(
                    (#[trigger] plan[b]).keys@,
                ).contains(#[trigger] store.order()[i])
        }),
    decreases plan.len() - from,
{
    if from < plan.len() {
        lemma_transfer_empty(store.order(), store@, views(plan[from].keys@));
        if transfer_requests(store.order(), store@, views(plan[from].keys@)).len() == 0 {
            law_next_active(plan, from + 1, store);
        }
    }
}

proof fn lemma_transfer_empty(
    order: Seq<Seq<char>>,
    m: Map<Seq<char>, Seq<char>>,
    keys: Seq<Seq<char>>,
)
    ensures
        transfer_requests(order, m, keys).len() == 0 <==> forall|i: int|
            0 <= i < order.len() ==> !keys.contains(#[trigger] order[i]),
    decreases order.len(),
{
    if order.len() > 0 {
        let before = order.drop_last();
        lemma_transfer_empty(before, m, keys);
        if transfer_requests(order, m, keys).len() == 0 {
            assert forall|i: int| 0 <= i < order.len() implies !keys.contains(#[trigger] order[i]) by {
                if i < before.len() {
                    assert(before[i] == order[i]);
                }
            }
        }
        if forall|i: int| 0 <= i < order.len() ==> !keys.contains(#[trigger] order[i]) {
            assert(!keys.contains(order[order.len() - 1]));
            assert forall|i: int| 0 <= i < before.len() implies !keys.contains(#[trigger] before[i]) by {
                assert(order[i] == before[i]);
            }
        }
    }
}

/// What a step of a migration leaves and asks for: the plan and the count of
/// queued keys stay; actions without a key in the store are passed over; the
/// first request of the action that follows goes to its node, with nothing
/// answered yet; and where no action follows, the migration is over and tells how
/// many keys were stored.
pub proof fn law_migration_goes_on(
    after: &MigrationRun,
    before: &MigrationRun,
    from: int,
    store: &NoVoHT,
    stored_keys: u64,
    step: MigrationStep,
)
    requires
        0 <= from <= before.actions().len(),
        after.goes_on(before, from, store, stored_keys, step),
    ensures
        after.wf(),
        after.actions() == before.actions(),
        after.queued_keys() == before.queued_keys(),
        after.stored_count() == stored_keys,
        from <= after.at() <= after.actions().len(),
        forall|b: int, i: int|
            from <= b < after.at() && 0 <= i < store.order().len() ==> !views(
                (#[trigger] before.actions()[b]).keys@,
            ).contains(#[trigger] store.order()[i]),
        after.at() == after.actions().len() ==> step == MigrationStep::Done(stored_keys),
        after.at() < after.actions().len() ==> {
            let action = after.actions()[after.at()];
            let sent = store.order().filter(|k: Seq<char>| views(action.keys@).contains(k));
            &&& after.hand_over().done() == 0
            &&& after.hand_over().count() == 0
            &&& after.hand_over().listed() == views(action.keys@)
            &&& sent.len() > 0
            &&& after.hand_over().all().len() == sent.len()
            &&& step matches MigrationStep::Send(message)
            &&& message.host@ == action.target_host@
            &&& message.request.opcode@ == encode_utf8("003"@)
            &&& message.request.key@ == encode_utf8(sent[0])
            &&& message.request.val@ == encode_utf8(store@[sent[0]])
        },
{
    law_next_active(before.actions(), from, store);
    if after.at() < after.actions().len() {
        let keys = views(after.actions()[after.at()].keys@);
        law_transfer_requests(store.order(), store@, keys);
        lemma_transfer_empty(store.order(), store@, keys);
        let i = choose|i: int| 0 <= i < store.order().len() && keys.contains(#[trigger] store.order()[i]);
        assert(keys.contains(store.order()[i]));
        assert(step->Send_0@ == (
            after.actions()[after.at()].target_host@,
            after.hand_over().all()[0].1,
        ));
    }
}

/// A response says that a key was stored exactly where its text begins with three
/// zeros.
pub proof fn law_stored_by_status(response: ZPackView)
    ensures
        is_stored(response) <==> {
            let lease = text_of(response.lease);
            lease.len() >= 3 && lease[0] == '0' && lease[1] == '0' && lease[2] == '0'
        },
{
    let lease = text_of(response.lease);
    reveal_strlit("000");
    assert("000"@[0] == '0' && "000"@[1] == '0' && "000"@[2] == '0');
    if lease.len() >= 3 {
        assert(lease.take(3)[0] == lease[0] && lease.take(3)[1] == lease[1] && lease.take(3)[2]
            == lease[2]);
        if lease[0] == '0' && lease[1] == '0' && lease[2] == '0' {
            assert(lease.take(3) =~= "000"@);
        }
    }
}

/// A hand-over begins with all its requests before it: those of the listed keys
/// that are in the store, in the order of the store, as plain inserts.
pub proof fn law_hand_over_begins(t: &KeyTransfer, store: &NoVoHT, keys: Seq<Seq<char>>)
    requires
        t.begins(store, keys),
    ensures
        t.wf(),
        t.listed() == keys,
        t.done() == 0,
        t.count() == 0,
        ({
            let sent = store.order().filter(|k: Seq<char>| keys.contains(k));
            &&& t.all().len() == sent.len()
            &&& forall|i: int|
                0 <= i < sent.len() ==> (#[trigger] t.all()[i]) == (
                    sent[i],
                    ZPackView {
                        opcode: encode_utf8("003"@),
                        key: encode_utf8(sent[i]),
                        val: encode_utf8(store@[sent[i]]),
                        newval: Seq::empty(),
                        lease: Seq::empty(),
                        valnull: false,
                    },
                )
        }),
{
    law_transfer_requests(store.order(), store@, keys);
}

/// What is reported of a key that could not be handed over names the key and the
/// error.
pub proof fn law_failure_text(key: Seq<char>, error: ErrorView)
    ensures
        failure_text(key, error) == "Failed to migrate key '"@ + key + "': "@ + error_message(error),
{
}

/// The views of pairs and of requests are those of their elements, in order.
pub proof fn law_migration_views(p: Seq<(String, String)>, r: Seq<KeyRequest>, i: int)
    ensures
        pair_views(p).len() == p.len(),
        0 <= i < p.len() ==> pair_views(p)[i] == (p[i].0@, p[i].1@),
        request_views(r).len() == r.len(),
        0 <= i < r.len() ==> request_views(r)[i] == (r[i].key@, r[i].request@),
{
}

/// A key is handed to a node where an action for that node lists it.
pub proof fn law_hands_over(plan: Seq<MigrationAction>, key: Seq<char>, node: (Seq<char>, u16))
    ensures
        hands_over(plan, key, node) <==> exists|a: int, i: int|
            #![trigger plan[a].keys@[i]]
            0 <= a < plan.len() && plan[a].target_host@ == node && 0 <= i < plan[a].keys@.len()
                && plan[a].keys@[i]@ == key,
{
    lemma_listed_somewhere(plan, key, node);
}

} // verus!
