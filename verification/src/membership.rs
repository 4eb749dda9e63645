//! Cluster membership: which nodes there are, and how they fare.
//!
//! Times are nanoseconds of a monotonic clock that the caller reads.

use crate::hash_util::{hash_bytes, law_route_in_range, route, HashUtil};
use crate::host_entity::{host_views, HostEntity};
use crate::text::same_text;
use vstd::prelude::*;
use vstd::utf8::encode_utf8;

verus! {

/// Health state of a cluster member node.
#[derive(Debug, Clone, Copy, PartialEq, Eq, Structural)]
pub enum NodeState {
    /// Node is actively responding to heartbeats.
    Alive,
    /// Node has missed heartbeats but is not yet declared dead.
    Suspect,
    /// Node has been declared dead after too many missed heartbeats.
    Dead,
    /// Node has gracefully left the cluster.
    Left,
}

/// The name of a state.
pub open spec fn state_name(s: NodeState) -> Seq<char> {
    match s {
        NodeState::Alive => "Alive"@,
        NodeState::Suspect => "Suspect"@,
        NodeState::Dead => "Dead"@,
        NodeState::Left => "Left"@,
    }
}

impl NodeState {
    /// The name of the state.
    pub fn to_string(&self) -> (r: String)
        ensures
            r@ == state_name(*self),
    {
        match self {
            NodeState::Alive => "Alive".to_owned(),
            NodeState::Suspect => "Suspect".to_owned(),
            NodeState::Dead => "Dead".to_owned(),
            NodeState::Left => "Left".to_owned(),
        }
    }
}

/// An entry in the membership table.
#[derive(Debug)]
pub struct MembershipEntry {
    /// The host entity (host + port).
    pub host: HostEntity,
    /// Current health state.
    pub state: NodeState,
    /// Time of the last heartbeat received.
    pub last_heartbeat: u64,
    /// Time when the node was first seen (joined).
    pub joined_at: u64,
}

/// The mathematical value of a [`MembershipEntry`].
pub struct MemberView {
    pub host: (Seq<char>, u16),
    pub state: NodeState,
    pub last_heartbeat: u64,
    pub joined_at: u64,
}

impl View for MembershipEntry {
    type V = MemberView;

    open spec fn view(&self) -> MemberView {
        MemberView {
            host: self.host@,
            state: self.state,
            last_heartbeat: self.last_heartbeat,
            joined_at: self.joined_at,
        }
    }
}

impl Clone for MembershipEntry {
    fn clone(&self) -> (r: MembershipEntry)
        ensures
            r == *self,
    {
        MembershipEntry {
            host: self.host.clone(),
            state: self.state,
            last_heartbeat: self.last_heartbeat,
            joined_at: self.joined_at,
        }
    }
}

// ── The table of members ────────────────────────────────────────────────

/// A node that joins at `now`.
pub open spec fn joining(host: (Seq<char>, u16), now: u64) -> MemberView {
    MemberView { host, state: NodeState::Alive, last_heartbeat: now, joined_at: now }
}

/// The first members: the given nodes in order, without this node itself.
pub open spec fn first_members(
    nodes: Seq<(Seq<char>, u16)>,
    self_node: (Seq<char>, u16),
    now: u64,
) -> Seq<MemberView>
    decreases nodes.len(),
{
    if nodes.len() == 0 {
        Seq::empty()
    } else {
        let before = first_members(nodes.drop_last(), self_node, now);
        if nodes.last() == self_node {
            before
        } else {
            before.push(joining(nodes.last(), now))
        }
    }
}

/// The position of the first member that is the given node, or the count of
/// members.
pub open spec fn member_position(members: Seq<MemberView>, node: (Seq<char>, u16)) -> int
    decreases members.len(),
{
    if members.len() == 0 || members[0].host == node {
        0
    } else {
        1 + member_position(members.skip(1), node)
    }
}

/// The members with the first entry of a node in the given state.
pub open spec fn with_state(
    members: Seq<MemberView>,
    node: (Seq<char>, u16),
    state: NodeState,
) -> Seq<MemberView> {
    let i = member_position(members, node);
    if i < members.len() {
        members.update(i, MemberView { state, ..members[i] })
    } else {
        members
    }
}

/// The members with the first entry of a node in the given state and heard of
/// at `now`.
pub open spec fn with_heartbeat(
    members: Seq<MemberView>,
    node: (Seq<char>, u16),
    state: NodeState,
    now: u64,
) -> Seq<MemberView> {
    let i = member_position(members, node);
    if i < members.len() {
        members.update(i, MemberView { state, last_heartbeat: now, ..members[i] })
    } else {
        members
    }
}

/// The nodes that are alive, in order.
pub open spec fn alive_nodes(members: Seq<MemberView>) -> Seq<(Seq<char>, u16)>
    decreases members.len(),
{
    if members.len() == 0 {
        Seq::empty()
    } else {
        let before = alive_nodes(members.drop_last());
        if members.last().state is Alive {
            before.push(members.last().host)
        } else {
            before
        }
    }
}

/// The members without any entry of a node.
pub open spec fn members_without(members: Seq<MemberView>, node: (Seq<char>, u16)) -> Seq<
    MemberView,
>
    decreases members.len(),
{
    if members.len() == 0 {
        Seq::empty()
    } else {
        let before = members_without(members.drop_last(), node);
        if members.last().host == node {
            before
        } else {
            before.push(members.last())
        }
    }
}

/// Whether a node is in the table.
pub open spec fn is_member(members: Seq<MemberView>, node: (Seq<char>, u16)) -> bool {
    exists|i: int| 0 <= i < members.len() && (#[trigger] members[i]).host == node
}

/// A member after a health check: alive members that were not heard of for
/// longer than `timeout` are suspect.
pub open spec fn checked(m: MemberView, now: u64, timeout: u64) -> MemberView {
    if m.state is Alive && now - m.last_heartbeat > timeout {
        MemberView { state: NodeState::Suspect, ..m }
    } else {
        m
    }
}

/// The node that a key belongs to among the given ones.
pub open spec fn owner(key: Seq<char>, nodes: Seq<(Seq<char>, u16)>) -> Option<(Seq<char>, u16)> {
    if nodes.len() == 0 {
        None
    } else {
        Some(nodes[route(key, nodes.len())])
    }
}

/// The views of the entries of a vector.
pub open spec fn member_views(v: Seq<MembershipEntry>) -> Seq<MemberView> {
    v.map_values(|m: MembershipEntry| m@)
}

/// A member is found where nothing before it is the same node.
pub proof fn lemma_member_position(members: Seq<MemberView>, node: (Seq<char>, u16))
    ensures
        0 <= member_position(members, node) <= members.len(),
        member_position(members, node) < members.len() ==> members[member_position(
            members,
            node,
        )].host == node,
        forall|j: int| 0 <= j < member_position(members, node) ==> (#[trigger] members[j]).host != node,
    decreases members.len(),
{
    if members.len() > 0 && members[0].host != node {
        lemma_member_position(members.skip(1), node);
        let p = member_position(members.skip(1), node);
        assert forall|j: int| 0 <= j < p + 1 implies (#[trigger] members[j]).host != node by {
            if j > 0 {
                assert(members.skip(1)[j - 1] == members[j]);
            }
        }
    }
}

proof fn lemma_member_position_is(members: Seq<MemberView>, node: (Seq<char>, u16), p: int)
    requires
        0 <= p <= members.len(),
        p < members.len() ==> members[p].host == node,
        forall|j: int| 0 <= j < p ==> (#[trigger] members[j]).host != node,
    ensures
        member_position(members, node) == p,
{
    lemma_member_position(members, node);
    let q = member_position(members, node);
    if q < p {
        assert(members[q].host != node);
    } else if p < q {
        assert(members[p].host != node);
    }
}

/// The node that a key belongs to among the given ones.
pub fn resolve_owner(key: &str, nodes: &Vec<HostEntity>) -> (r: Option<HostEntity>)
    ensures
        r is Some <==> owner(key@, host_views(nodes@)) is Some,
        r matches Some(node) ==> owner(key@, host_views(nodes@)) == Some(node@),
        nodes@.len() == 0 ==> r is None,
        nodes@.len() > 0 ==> r == Some(
            nodes@[hash_bytes(encode_utf8(key@)) % nodes@.len() as int],
        ),
{
    if nodes.len() == 0 {
        return None;
    }
    proof {
        law_route_in_range(key@, nodes@.len());
    }
    let hash_code: u64 = HashUtil::gen_hash_str(key);
    let index: usize = (hash_code % nodes.len() as u64) as usize;
    assert(host_views(nodes@)[index as int] == nodes@[index as int]@);
    Some(nodes[index].clone())
}

/// Manages cluster membership tracking.
///
/// `MembershipManager` maintains a list of all known cluster members,
/// tracks their health state, and provides zero-hop routing via
/// `hash(key) % active_count`.
#[derive(Debug)]
pub struct MembershipManager {
    members: Vec<MembershipEntry>,
    self_node: HostEntity,
}

impl View for MembershipManager {
    type V = Seq<MemberView>;

    closed spec fn view(&self) -> Seq<MemberView> {
        member_views(self.members@)
    }
}

impl MembershipManager {
    /// This node itself.
    pub closed spec fn me(&self) -> (Seq<char>, u16) {
        self.self_node@
    }

    /// This node is not a member of its own table.
    pub open spec fn wf(&self) -> bool {
        forall|i: int| 0 <= i < self@.len() ==> (#[trigger] self@[i]).host != self.me()
    }

    /// Create a new membership manager.
    ///
    /// * `self_host` — The host entity representing this node.
    /// * `initial_members` — Initial list of neighbor nodes (from neighbor.conf).
    /// * `now` — The current time.
    pub fn new(self_host: HostEntity, initial_members: Vec<HostEntity>, now: u64) -> (r:
        MembershipManager)
        ensures
            r.wf(),
            r.me() == self_host@,
            r@ == first_members(host_views(initial_members@), self_host@, now),
    {
        let mut members: Vec<MembershipEntry> = Vec::new();
        let ghost all = host_views(initial_members@);
        let mut i: usize = 0;
        assert(all.take(0) =~= Seq::empty());
        assert(member_views(members@) =~= Seq::empty());
        while i < initial_members.len()
            invariant
                i <= initial_members@.len(),
                all == host_views(initial_members@),
                member_views(members@) == first_members(all.take(i as int), self_host@, now),
                forall|j: int| 0 <= j < members@.len() ==> (#[trigger] members@[j]).host@ != self_host@,
            decreases initial_members@.len() - i,
        {
            assert(all.take(i + 1).drop_last() =~= all.take(i as int));
            assert(all[i as int] == initial_members@[i as int]@);
            let host = initial_members[i].clone();
            if host != self_host {
                let entry = MembershipEntry {
                    host,
                    state: NodeState::Alive,
                    last_heartbeat: now,
                    joined_at: now,
                };
                assert(member_views(members@.push(entry)) =~= member_views(members@).push(entry@));
                members.push(entry);
            }
            i += 1;
        }
        assert(all.take(i as int) =~= all);
        MembershipManager { members, self_node: self_host }
    }

    /// Return all members regardless of state.
    pub fn members(&self) -> (r: Vec<MembershipEntry>)
        ensures
            member_views(r@) == self@,
    {
        let mut out: Vec<MembershipEntry> = Vec::new();
        for i in 0..self.members.len()
            invariant
                out@ == self.members@.take(i as int),
        {
            out.push(self.members[i].clone());
            assert(out@ =~= self.members@.take(i + 1));
        }
        assert(self.members@.take(self.members@.len() as int) =~= self.members@);
        out
    }

    /// Return the number of alive members (excluding self).
    pub fn member_count(&self) -> (r: usize)
        ensures
            r == alive_nodes(self@).len(),
    {
        self.active_members().len()
    }

    /// The number of members regardless of state.
    pub fn total_count(&self) -> (r: usize)
        ensures
            r == self@.len(),
    {
        self.members.len()
    }

    fn find(&self, host: &str, port: u16) -> (r: usize)
        ensures
            r == member_position(self@, (host@, port)),
            r <= self.members@.len(),
    {
        let mut i: usize = 0;
        while i < self.members.len()
            invariant
                i <= self.members@.len(),
                forall|j: int| 0 <= j < i ==> (#[trigger] self@[j]).host != (host@, port),
            decreases self.members@.len() - i,
        {
            let node = &self.members[i].host;
            assert(self@[i as int].host == node@);
            if node.port == port && same_text(&node.host, host) {
                proof {
                    lemma_member_position_is(self@, (host@, port), i as int);
                }
                return i;
            }
            i += 1;
        }
        proof {
            lemma_member_position_is(self@, (host@, port), i as int);
        }
        i
    }

    /// Mark a node as alive (e.g., from a heartbeat).
    pub fn mark_alive(&mut self, host: &str, port: u16, now: u64)
        requires
            old(self).wf(),
        ensures
            final(self).wf(),
            final(self).me() == old(self).me(),
            final(self)@ == with_heartbeat(old(self)@, (host@, port), NodeState::Alive, now),
    {
        self.set_heartbeat(host, port, NodeState::Alive, now);
    }

    /// Mark a node as suspect (missed heartbeats).
    pub fn mark_suspect(&mut self, host: &str, port: u16, now: u64)
        requires
            old(self).wf(),
        ensures
            final(self).wf(),
            final(self).me() == old(self).me(),
            final(self)@ == with_heartbeat(old(self)@, (host@, port), NodeState::Suspect, now),
    {
        self.set_heartbeat(host, port, NodeState::Suspect, now);
    }

    fn set_heartbeat(&mut self, host: &str, port: u16, state: NodeState, now: u64)
        requires
            old(self).wf(),
        ensures
            final(self).wf(),
            final(self).me() == old(self).me(),
            final(self)@ == with_heartbeat(old(self)@, (host@, port), state, now),
    {
        let i = self.find(host, port);
        if i < self.members.len() {
            let mut entry = self.members[i].clone();
            assert(self@[i as int] == entry@);
            entry.state = state;
            entry.last_heartbeat = now;
            let ghost changed = entry@;
            self.members.set(i, entry);
            assert(self@ =~= old(self)@.update(i as int, changed));
        }
    }

    /// Mark a node as dead.
    pub fn mark_dead(&mut self, host: &str, port: u16)
        requires
            old(self).wf(),
        ensures
            final(self).wf(),
            final(self).me() == old(self).me(),
            final(self)@ == with_state(old(self)@, (host@, port), NodeState::Dead),
    {
        let i = self.find(host, port);
        if i < self.members.len() {
            let mut entry = self.members[i].clone();
            assert(self@[i as int] == entry@);
            entry.state = NodeState::Dead;
            let ghost changed = entry@;
            self.members.set(i, entry);
            assert(self@ =~= old(self)@.update(i as int, changed));
        }
    }

    /// Check if a node is alive.
    pub fn is_alive(&self, host: &str, port: u16) -> (r: bool)
        ensures
            r == (exists|i: int|
                0 <= i < self@.len() && (#[trigger] self@[i]).host == (host@, port)
                    && self@[i].state is Alive),
    {
        for i in 0..self.members.len()
            invariant
                forall|j: int|
                    0 <= j < i ==> !((#[trigger] self@[j]).host == (host@, port)
                        && self@[j].state is Alive),
        {
            let entry = &self.members[i];
            assert(self@[i as int] == entry@);
            if entry.state == NodeState::Alive && entry.host.port == port && same_text(
                &entry.host.host,
                host,
            ) {
                return true;
            }
        }
        false
    }

    /// Add a new member dynamically, unless it is this node or already there.
    pub fn add_member(&mut self, host: HostEntity, now: u64)
        requires
            old(self).wf(),
        ensures
            final(self).wf(),
            final(self).me() == old(self).me(),
            host@ == old(self).me() || is_member(old(self)@, host@) ==> final(self)@ == old(self)@,
            host@ != old(self).me() && !is_member(old(self)@, host@) ==> final(self)@
                == old(self)@.push(joining(host@, now)),
    {
        if host == self.self_node {
            return ;
        }
        let i = self.find(&host.host, host.port);
        proof {
            lemma_member_position(self@, host@);
        }
        if i < self.members.len() {
            assert(self@[i as int].host == host@);
            return ;
        }
        let entry = MembershipEntry {
            host,
            state: NodeState::Alive,
            last_heartbeat: now,
            joined_at: now,
        };
        let ghost added = entry@;
        self.members.push(entry);
        assert(self@ =~= old(self)@.push(added));
    }

    /// Remove a member from the membership table.
    pub fn remove_member(&mut self, host: &str, port: u16)
        requires
            old(self).wf(),
        ensures
            final(self).wf(),
            final(self).me() == old(self).me(),
            final(self)@ == members_without(old(self)@, (host@, port)),
    {
        let ghost all = self@;
        let mut kept: Vec<MembershipEntry> = Vec::new();
        let mut i: usize = 0;
        assert(all.take(0) =~= Seq::empty());
        assert(member_views(kept@) =~= Seq::empty());
        while i < self.members.len()
            invariant
                i <= self.members@.len(),
                all == self@,
                self.wf(),
                member_views(kept@) == members_without(all.take(i as int), (host@, port)),
                forall|j: int| 0 <= j < kept@.len() ==> (#[trigger] kept@[j]).host@ != self.me(),
            decreases self.members@.len() - i,
        {
            assert(all.take(i + 1).drop_last() =~= all.take(i as int));
            let entry = self.members[i].clone();
            assert(all[i as int] == entry@);
            if !(entry.host.port == port && same_text(&entry.host.host, host)) {
                assert(member_views(kept@.push(entry)) =~= member_views(kept@).push(entry@));
                kept.push(entry);
            }
            i += 1;
        }
        assert(all.take(i as int) =~= all);
        self.members = kept;
    }

    /// Check health of all members and mark stale ones as suspect.
    ///
    /// Nodes that have not sent a heartbeat within `timeout` are marked
    /// as suspect.
    pub fn check_health(&mut self, now: u64, timeout: u64)
        requires
            old(self).wf(),
        ensures
            final(self).wf(),
            final(self).me() == old(self).me(),
            final(self)@ == old(self)@.map_values(|m: MemberView| checked(m, now, timeout)),
    {
        let ghost before = self@;
        let mut i: usize = 0;
        while i < self.members.len()
            invariant
                i <= self.members@.len(),
                self.members@.len() == before.len(),
                before == old(self)@,
                self.me() == old(self).me(),
                forall|j: int| 0 <= j < i ==> #[trigger] self@[j] == checked(before[j], now, timeout),
                forall|j: int| i <= j < before.len() ==> #[trigger] self@[j] == before[j],
            decreases self.members@.len() - i,
        {
            let mut entry = self.members[i].clone();
            assert(self@[i as int] == entry@);
            let ghost now_there = self@;
            let elapsed: u64 = if now > entry.last_heartbeat { now - entry.last_heartbeat } else { 0 };
            if entry.state == NodeState::Alive && elapsed > timeout {
                entry.state = NodeState::Suspect;
            }
            let ghost changed = entry@;
            self.members.set(i, entry);
            assert(self@ =~= now_there.update(i as int, changed));
            i += 1;
        }
        assert(self@ =~= old(self)@.map_values(|m: MemberView| checked(m, now, timeout)));
        assert(self.wf()) by {
            assert forall|j: int| 0 <= j < self@.len() implies (#[trigger] self@[j]).host != self.me() by {
                assert(before[j].host != old(self).me());
            }
        }
    }

    /// Return only alive members.
    pub fn active_members(&self) -> (r: Vec<HostEntity>)
        ensures
            host_views(r@) == alive_nodes(self@),
    {
        let mut out: Vec<HostEntity> = Vec::new();
        let ghost all = self@;
        let mut i: usize = 0;
        assert(all.take(0) =~= Seq::empty());
        assert(host_views(out@) =~= Seq::empty());
        while i < self.members.len()
            invariant
                i <= self.members@.len(),
                all == self@,
                host_views(out@) == alive_nodes(all.take(i as int)),
            decreases self.members@.len() - i,
        {
            assert(all.take(i + 1).drop_last() =~= all.take(i as int));
            let entry = &self.members[i];
            assert(all[i as int] == entry@);
            if entry.state == NodeState::Alive {
                let node = entry.host.clone();
                assert(host_views(out@.push(node)) =~= host_views(out@).push(node@));
                out.push(node);
            }
            i += 1;
        }
        assert(all.take(i as int) =~= all);
        out
    }

    /// Zero-hop routing: resolve which node should handle a key.
    ///
    /// Returns the `HostEntity` of the node responsible for `key`,
    /// or `None` if there are no alive members.
    pub fn resolve_node(&self, key: &str) -> (r: Option<HostEntity>)
        ensures
            r is Some <==> owner(key@, alive_nodes(self@)) is Some,
            r matches Some(node) ==> owner(key@, alive_nodes(self@)) == Some(node@),
            alive_nodes(self@).len() > 0 ==> (r matches Some(node) && node@ == alive_nodes(
                self@,
            )[hash_bytes(encode_utf8(key@)) % alive_nodes(self@).len() as int]),
    {
        resolve_owner(key, &self.active_members())
    }

    /// Get the self node.
    pub fn self_node(&self) -> (r: &HostEntity)
        ensures
            r@ == self.me(),
    {
        &self.self_node
    }
}

// ── Laws ────────────────────────────────────────────────────────────────

/// Every node that is alive is a member.
pub proof fn lemma_alive_is_member(members: Seq<MemberView>, i: int)
    requires
        0 <= i < alive_nodes(members).len(),
    ensures
        exists|j: int|
            0 <= j < members.len() && (#[trigger] members[j]).host == alive_nodes(members)[i]
                && members[j].state is Alive,
    decreases members.len(),
{
    let before = members.drop_last();
    if i < alive_nodes(before).len() {
        lemma_alive_is_member(before, i);
        let j = choose|j: int|
            0 <= j < before.len() && (#[trigger] before[j]).host == alive_nodes(before)[i]
                && before[j].state is Alive;
        assert(members[j] == before[j]);
        assert(alive_nodes(members)[i] == alive_nodes(before)[i]);
    } else {
        assert(members[members.len() - 1].host == alive_nodes(members)[i]);
    }
}

/// A key is routed to a member that is alive, and to none where no member is.
pub proof fn law_owner_is_alive(members: Seq<MemberView>, key: Seq<char>)
    ensures
        owner(key, alive_nodes(members)) is None <==> alive_nodes(members).len() == 0,
        owner(key, alive_nodes(members)) matches Some(node) ==> exists|j: int|
            0 <= j < members.len() && (#[trigger] members[j]).host == node
                && members[j].state is Alive,
{
    let nodes = alive_nodes(members);
    if nodes.len() > 0 {
        law_route_in_range(key, nodes.len());
        lemma_alive_is_member(members, route(key, nodes.len()));
    }
}

/// After it is removed, a node is no member.
pub proof fn law_removed_is_no_member(members: Seq<MemberView>, node: (Seq<char>, u16))
    ensures
        !is_member(members_without(members, node), node),
    decreases members.len(),
{
    if members.len() > 0 {
        let before = members.drop_last();
        law_removed_is_no_member(before, node);
        let rest = members_without(before, node);
        let all = members_without(members, node);
        if is_member(all, node) {
            let i = choose|i: int| 0 <= i < all.len() && (#[trigger] all[i]).host == node;
            assert(rest[i].host == node);
        }
    }
}

/// A health check touches no member that is not alive, nor one that was heard
/// of within the timeout, and never makes a member alive.
pub proof fn law_check_only_suspects_stale(m: MemberView, now: u64, timeout: u64)
    ensures
        checked(m, now, timeout).host == m.host,
        checked(m, now, timeout).last_heartbeat == m.last_heartbeat,
        checked(m, now, timeout).joined_at == m.joined_at,
        !(m.state is Alive) || now - m.last_heartbeat <= timeout ==> checked(m, now, timeout) == m,
        checked(checked(m, now, timeout), now, timeout) == checked(m, now, timeout),
        checked(m, now, timeout).state is Alive ==> m.state is Alive,
{
}

/// Hearing of a member that was suspect makes it alive again, from then on for
/// the length of the timeout.
pub proof fn law_heartbeat_revives(
    members: Seq<MemberView>,
    node: (Seq<char>, u16),
    now: u64,
    later: u64,
    timeout: u64,
)
    requires
        is_member(members, node),
        later - now <= timeout,
    ensures
        ({
            let i = member_position(members, node);
            let after = with_heartbeat(members, node, NodeState::Alive, now);
            &&& i < after.len()
            &&& after[i].host == node
            &&& checked(after[i], later, timeout).state is Alive
        }),
{
    lemma_member_position(members, node);
    let j = choose|j: int| 0 <= j < members.len() && (#[trigger] members[j]).host == node;
    assert(member_position(members, node) <= j);
}

/// The nodes that are alive are the hosts of the members whose state says so, in
/// the order of the table and however often one comes up.
pub proof fn law_alive_nodes(members: Seq<MemberView>)
    ensures
        alive_nodes(members) == members.filter_map(
            |m: MemberView|
                if m.state == NodeState::Alive {
                    Some(m.host)
                } else {
                    None
                },
        ),
    decreases members.len(),
{
    let f = |m: MemberView|
        if m.state == NodeState::Alive {
            Some(m.host)
        } else {
            None
        };
    if members.len() > 0 {
        law_alive_nodes(members.drop_last());
        assert(alive_nodes(members) =~= members.filter_map(f));
    }
}

/// The nodes alive in two tables, one behind the other, are those of the one and
/// then those of the other: no member decides on another one.
pub proof fn law_alive_nodes_one_by_one(a: Seq<MemberView>, b: Seq<MemberView>)
    ensures
        alive_nodes(a + b) == alive_nodes(a) + alive_nodes(b),
    decreases b.len(),
{
    if b.len() == 0 {
        assert(a + b =~= a);
        assert(alive_nodes(a) + alive_nodes(b) =~= alive_nodes(a));
    } else {
        law_alive_nodes_one_by_one(a, b.drop_last());
        assert((a + b).drop_last() =~= a + b.drop_last());
        assert(alive_nodes(a + b) =~= alive_nodes(a) + alive_nodes(b));
    }
}

/// A key belongs to the node at the remainder of its hash by the count of nodes.
pub proof fn law_owner_by_hash(key: Seq<char>, nodes: Seq<(Seq<char>, u16)>)
    ensures
        nodes.len() > 0 ==> owner(key, nodes) == Some(
            nodes[hash_bytes(encode_utf8(key)) % nodes.len() as int],
        ),
        nodes.len() == 0 ==> owner(key, nodes) is None,
{
}

/// The first members are the given nodes but this one, in order, each of them
/// alive and heard of now.
pub proof fn law_first_members(
    nodes: Seq<(Seq<char>, u16)>,
    self_node: (Seq<char>, u16),
    now: u64,
)
    ensures
        first_members(nodes, self_node, now) == nodes.filter_map(
            |node: (Seq<char>, u16)|
                if node == self_node {
                    None
                } else {
                    Some(
                        MemberView {
                            host: node,
                            state: NodeState::Alive,
                            last_heartbeat: now,
                            joined_at: now,
                        },
                    )
                },
        ),
    decreases nodes.len(),
{
    let f = |node: (Seq<char>, u16)|
        if node == self_node {
            None
        } else {
            Some(
                MemberView {
                    host: node,
                    state: NodeState::Alive,
                    last_heartbeat: now,
                    joined_at: now,
                },
            )
        };
    if nodes.len() > 0 {
        law_first_members(nodes.drop_last(), self_node, now);
        assert(first_members(nodes, self_node, now) =~= nodes.filter_map(f));
    }
}

/// Removing a node takes out its entries and leaves every other one in its order.
pub proof fn law_members_without(members: Seq<MemberView>, node: (Seq<char>, u16))
    ensures
        members_without(members, node) == members.filter(|m: MemberView| m.host != node),
    decreases members.len(),
{
    reveal(Seq::filter);
    if members.len() > 0 {
        law_members_without(members.drop_last(), node);
    }
}

/// Marking a node changes the first entry of that node and no other one: its
/// state, and where it was heard of, the time. A node that is no member changes
/// nothing.
pub proof fn law_marking_changes_one_entry(
    members: Seq<MemberView>,
    node: (Seq<char>, u16),
    state: NodeState,
    now: u64,
    p: int,
)
    requires
        0 <= p <= members.len(),
        p < members.len() ==> members[p].host == node,
        forall|j: int| 0 <= j < p ==> (#[trigger] members[j]).host != node,
    ensures
        with_heartbeat(members, node, state, now).len() == members.len(),
        with_state(members, node, state).len() == members.len(),
        forall|j: int|
            0 <= j < members.len() && j != p ==> (#[trigger] with_heartbeat(
                members,
                node,
                state,
                now,
            )[j]) == members[j],
        forall|j: int|
            0 <= j < members.len() && j != p ==> (#[trigger] with_state(members, node, state)[j])
                == members[j],
        p < members.len() ==> {
            let m = with_heartbeat(members, node, state, now)[p];
            &&& m.host == node
            &&& m.state == state
            &&& m.last_heartbeat == now
            &&& m.joined_at == members[p].joined_at
        },
        p < members.len() ==> {
            let m = with_state(members, node, state)[p];
            &&& m.host == node
            &&& m.state == state
            &&& m.last_heartbeat == members[p].last_heartbeat
            &&& m.joined_at == members[p].joined_at
        },
{
    lemma_member_position_is(members, node, p);
}

/// A health check suspects exactly the members that are alive and were not heard
/// of for longer than the timeout, and changes nothing else.
pub proof fn law_check_suspects_exactly_stale(m: MemberView, now: u64, timeout: u64)
    ensures
        m.state == NodeState::Alive && now - m.last_heartbeat > timeout ==> checked(m, now, timeout)
            == (MemberView {
            host: m.host,
            state: NodeState::Suspect,
            last_heartbeat: m.last_heartbeat,
            joined_at: m.joined_at,
        }),
        m.state != NodeState::Alive || now <= m.last_heartbeat + timeout ==> checked(m, now, timeout)
            == m,
{
}

/// The four states have four names.
pub proof fn law_state_names(a: NodeState, b: NodeState)
    ensures
        state_name(a) == state_name(b) <==> a == b,
        state_name(NodeState::Alive) == "Alive"@,
        state_name(NodeState::Suspect) == "Suspect"@,
        state_name(NodeState::Dead) == "Dead"@,
        state_name(NodeState::Left) == "Left"@,
{
    reveal_strlit("Alive");
    reveal_strlit("Suspect");
    reveal_strlit("Dead");
    reveal_strlit("Left");
    assert("Alive"@[0] == 'A' && "Suspect"@[0] == 'S' && "Dead"@[0] == 'D' && "Left"@[0] == 'L');
}

/// The views of entries are those of their parts, one for each and in order.
pub proof fn law_member_views(v: Seq<MembershipEntry>, i: int)
    requires
        0 <= i < v.len(),
    ensures
        member_views(v).len() == v.len(),
        member_views(v)[i] == (MemberView {
            host: (v[i].host.host@, v[i].host.port),
            state: v[i].state,
            last_heartbeat: v[i].last_heartbeat,
            joined_at: v[i].joined_at,
        }),
{
}

} // verus!
