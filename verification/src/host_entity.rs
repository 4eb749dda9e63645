//! A ZHT server node: its host and port.

use crate::number::{decimal, decimal_of, law_decimal_round_trip, lemma_decimal_digits, ParseText};
use crate::text::{chars_of, join3, substring_of, IntoText};
use vstd::prelude::*;
use vstd::std_specs::cmp::PartialEqSpec;
use vstd::std_specs::convert::{FromSpec, FromSpecImpl};

verus! {

/// A remote ZHT server node, identified by its host and port.
#[derive(Debug, Hash)]
pub struct HostEntity {
    /// Host name or IP address (e.g., `"localhost"`, `"192.168.1.10"`)
    pub host: String,
    /// Port number
    pub port: u16,
}

impl View for HostEntity {
    type V = (Seq<char>, u16);

    open spec fn view(&self) -> (Seq<char>, u16) {
        (self.host@, self.port)
    }
}

/// The views of the nodes of a vector.
pub open spec fn host_views(v: Seq<HostEntity>) -> Seq<(Seq<char>, u16)> {
    v.map_values(|n: HostEntity| n@)
}

/// The `host:port` text of a node.
pub open spec fn address_text(node: (Seq<char>, u16)) -> Seq<char> {
    node.0 + ":"@ + decimal(node.1 as nat)
}

/// The position of the last `:` in `s`, or -1.
pub open spec fn last_colon(s: Seq<char>) -> int
    decreases s.len(),
{
    if s.len() == 0 {
        -1
    } else if s.last() == ':' {
        s.len() - 1
    } else {
        last_colon(s.drop_last())
    }
}

/// The node that an address names: the host is what stands before the last
/// colon, the port what stands behind it.
pub open spec fn parse_address(s: Seq<char>) -> Option<(Seq<char>, u16)> {
    let i = last_colon(s);
    if i < 0 {
        None
    } else {
        match u16::parsed(s.skip(i + 1)) {
            Some(port) => Some((s.take(i), port)),
            None => None,
        }
    }
}

impl HostEntity {
    /// Create a new host entity.
    pub fn new<T: IntoText>(host: T, port: u16) -> (r: HostEntity)
        ensures
            r@ == (host.text(), port),
    {
        HostEntity { host: host.into_text(), port }
    }

    /// Returns the "host:port" string representation.
    pub fn address(&self) -> (r: String)
        ensures
            r@ == address_text(self@),
    {
        let port = decimal_of(self.port as u64);
        join3(&self.host, ":", &port)
    }

    /// The text of the node, which is its address.
    pub fn to_string(&self) -> (r: String)
        ensures
            r@ == address_text(self@),
    {
        self.address()
    }

    /// Parse a "host:port" string into a `HostEntity`.
    pub fn from_address(addr: &str) -> (r: Option<HostEntity>)
        ensures
            r is Some <==> parse_address(addr@) is Some,
            r matches Some(node) ==> parse_address(addr@) == Some(node@),
    {
        let v = chars_of(addr);
        let mut i: usize = v.len();
        assert(v@.take(v@.len() as int) =~= v@);
        while i > 0 && v[i - 1] != ':'
            invariant
                i <= v@.len(),
                last_colon(v@.take(i as int)) == last_colon(v@),
            decreases i,
        {
            assert(v@.take(i as int).drop_last() =~= v@.take(i - 1));
            i -= 1;
        }
        if i == 0 {
            return None;
        }
        let port_text = substring_of(&v, i, v.len());
        assert(port_text@ =~= v@.skip(i as int));
        match u16::parse_text(&port_text) {
            Some(port) => {
                let host = substring_of(&v, 0, i - 1);
                assert(host@ =~= v@.take(i - 1));
                Some(HostEntity { host, port })
            },
            None => None,
        }
    }
}

impl Clone for HostEntity {
    fn clone(&self) -> (r: HostEntity)
        ensures
            r == *self,
    {
        HostEntity { host: self.host.clone(), port: self.port }
    }
}

/// The same nodes in a vector of their own.
pub fn copy_hosts(hosts: &Vec<HostEntity>) -> (r: Vec<HostEntity>)
    ensures
        r@ == hosts@,
{
    let mut out: Vec<HostEntity> = Vec::new();
    for i in 0..hosts.len()
        invariant
            out@ == hosts@.take(i as int),
    {
        out.push(hosts[i].clone());
        assert(out@ =~= hosts@.take(i + 1));
    }
    assert(hosts@.take(hosts@.len() as int) =~= hosts@);
    out
}

impl PartialEq for HostEntity {
    fn eq(&self, other: &HostEntity) -> (r: bool) {
        self.host == other.host && self.port == other.port
    }
}

impl vstd::std_specs::cmp::PartialEqSpecImpl for HostEntity {
    open spec fn obeys_eq_spec() -> bool {
        true
    }

    open spec fn eq_spec(&self, other: &HostEntity) -> bool {
        self@ == other@
    }
}

impl Eq for HostEntity {

}

impl From<(String, u16)> for HostEntity {
    fn from(node: (String, u16)) -> (r: HostEntity) {
        HostEntity { host: node.0, port: node.1 }
    }
}

impl FromSpecImpl<(String, u16)> for HostEntity {
    open spec fn obeys_from_spec() -> bool {
        true
    }

    open spec fn from_spec(node: (String, u16)) -> HostEntity {
        HostEntity { host: node.0, port: node.1 }
    }
}

impl<'a> From<(&'a str, u16)> for HostEntity {
    fn from(node: (&'a str, u16)) -> (r: HostEntity)
        ensures
            r@ == (node.0@, node.1),
    {
        HostEntity { host: node.0.to_owned(), port: node.1 }
    }
}

impl<'a> FromSpecImpl<(&'a str, u16)> for HostEntity {
    open spec fn obeys_from_spec() -> bool {
        false
    }

    open spec fn from_spec(node: (&'a str, u16)) -> HostEntity {
        arbitrary()
    }
}

/// Parsing the address of a node gives that node back, whatever its host.
pub proof fn law_address_round_trip(node: (Seq<char>, u16))
    ensures
        parse_address(address_text(node)) == Some(node),
{
    reveal_strlit(":");
    let digits = decimal(node.1 as nat);
    let s = address_text(node);
    lemma_decimal_digits(node.1 as nat);
    law_decimal_round_trip(node.1 as nat, u16::MAX as nat);
    assert(s =~= node.0.push(':') + digits);
    lemma_last_colon(node.0, digits);
    assert(s.take(node.0.len() as int) =~= node.0);
    assert(s.skip(node.0.len() as int + 1) =~= digits);
}

proof fn lemma_last_colon(host: Seq<char>, digits: Seq<char>)
    requires
        forall|i: int| 0 <= i < digits.len() ==> #[trigger] digits[i] != ':',
    ensures
        last_colon(host.push(':') + digits) == host.len(),
    decreases digits.len(),
{
    let s = host.push(':') + digits;
    if digits.len() > 0 {
        assert(s.last() == digits.last());
        assert(s.drop_last() =~= host.push(':') + digits.drop_last());
        lemma_last_colon(host, digits.drop_last());
    } else {
        assert(s =~= host.push(':'));
    }
}

/// The address of a node is its host, a colon and the digits of its port.
pub proof fn law_address_parts(node: (Seq<char>, u16))
    ensures
        address_text(node).take(node.0.len() as int) == node.0,
        address_text(node)[node.0.len() as int] == ':',
        address_text(node).skip(node.0.len() as int + 1) == decimal(node.1 as nat),
{
    reveal_strlit(":");
    let s = address_text(node);
    assert(s.take(node.0.len() as int) =~= node.0);
    assert(s.skip(node.0.len() as int + 1) =~= decimal(node.1 as nat));
}

/// An address is read at its last colon: what stands before it is the host, and
/// what stands behind it has to be a port. Without a colon there is no node.
pub proof fn law_address_is_read_at_last_colon(host: Seq<char>, port: Seq<char>)
    requires
        forall|i: int| 0 <= i < port.len() ==> #[trigger] port[i] != ':',
    ensures
        parse_address(host.push(':') + port) == (match u16::parsed(port) {
            Some(p) => Some((host, p)),
            None => None,
        }),
        parse_address(port) is None,
{
    let s = host.push(':') + port;
    lemma_last_colon(host, port);
    assert(s.take(host.len() as int) =~= host);
    assert(s.skip(host.len() as int + 1) =~= port);
    lemma_no_colon(port);
}

proof fn lemma_no_colon(s: Seq<char>)
    requires
        forall|i: int| 0 <= i < s.len() ==> #[trigger] s[i] != ':',
    ensures
        last_colon(s) == -1,
    decreases s.len(),
{
    if s.len() > 0 {
        assert(s[s.len() - 1] != ':');
        assert forall|i: int| 0 <= i < s.len() - 1 implies #[trigger] s.drop_last()[i] != ':' by {
            assert(s[i] != ':');
        }
        lemma_no_colon(s.drop_last());
    }
}

/// The views of nodes are their hosts and ports, one for each and in order.
pub proof fn law_host_views(v: Seq<HostEntity>, i: int)
    requires
        0 <= i < v.len(),
    ensures
        host_views(v).len() == v.len(),
        host_views(v)[i] == (v[i].host@, v[i].port),
{
}

/// Two nodes are the same where host and port are.
pub proof fn law_same_node(a: HostEntity, b: HostEntity)
    ensures
        HostEntity::obeys_eq_spec(),
        a.eq_spec(&b) <==> a.host@ == b.host@ && a.port == b.port,
{
}

/// A pair of a host and a port is made into that node.
pub proof fn law_node_from_pair(host: String, port: u16)
    ensures
        <HostEntity as FromSpec<(String, u16)>>::from_spec((host, port))@ == (host@, port),
{
}

} // verus!
