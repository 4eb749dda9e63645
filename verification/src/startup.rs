//! What a server checks and settles before it starts.

use crate::constants::{PROTO_VAL_MPI, PROTO_VAL_TCP, PROTO_VAL_UDP};
use crate::text::{join3, same_text};
use vstd::prelude::*;

verus! {

/// Whether a configured protocol is one that a server can be set up for. The
/// case of its letters matters.
pub open spec fn is_known_protocol(protocol: Seq<char>) -> bool {
    protocol == PROTO_VAL_TCP@ || protocol == PROTO_VAL_UDP@ || protocol == PROTO_VAL_MPI@
}

/// Checks the configured protocol. The error says what it must be.
pub fn check_protocol(protocol: &str) -> (r: Result<(), String>)
    ensures
        r is Ok <==> is_known_protocol(protocol@),
        r matches Err(message) ==> message@ == "Unsupported protocol '"@ + protocol@
            + "'. Must be one of: TCP, UDP, MPI"@,
{
    if same_text(protocol, PROTO_VAL_TCP) || same_text(protocol, PROTO_VAL_UDP) || same_text(
        protocol,
        PROTO_VAL_MPI,
    ) {
        Ok(())
    } else {
        Err(join3("Unsupported protocol '", protocol, "'. Must be one of: TCP, UDP, MPI"))
    }
}

/// The port that a server listens on: the one that was asked for, or else the
/// configured one.
pub fn effective_port(requested: Option<u16>, configured: u16) -> (r: u16)
    ensures
        r == (match requested {
            Some(port) => port,
            None => configured,
        }),
{
    match requested {
        Some(port) => port,
        None => configured,
    }
}

/// Exactly three names of protocols are known.
pub proof fn law_known_protocols(protocol: Seq<char>)
    ensures
        is_known_protocol(protocol) <==> protocol == "TCP"@ || protocol == "UDP"@ || protocol
            == "MPI"@,
{
}

} // verus!
