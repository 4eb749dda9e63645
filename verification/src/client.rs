//! ZHT client: what is sent for each operation of the distributed hash table,
//! and what the responses mean.
//!
//! Each operation is routed to the node that its key belongs to. A method of
//! [`ZHTClient`] gives the message for the operation; the method beside it
//! takes in the response.

use crate::config::{neighbors_of, parameters_of, AppConfig, FileContents};
use crate::constants::{
    OPC_APPEND, OPC_CMPSWP, OPC_INSERT, OPC_LOOKUP, OPC_REMOVE, OPC_STCHGCB, REC_CLTFAIL,
    REC_EMPTYKEY, REC_NONEXISTKEY, REC_SCCBPOLLTRY, REC_SRVFAIL, REC_SUCC,
};
use crate::error::{ErrorView, ZhtError, ZhtResult};
use crate::hash_util::hash_bytes;
use crate::membership::owner;
use crate::novoht::{appended_value, law_append_keeps_both, swaps};
use crate::number::{decimal, decimal_of, law_decimal_round_trip};
use crate::replication::Outgoing;
use crate::text::{
    chars_of, copy_range, join2, law_text_round_trip, lemma_utf8_concat, lines_of, same_text,
    substring_of, text_lossy, text_of, utf8_bytes,
};
use crate::worker::{answer, is_callback, law_codes_name_operations, stored, PendingCallback};
use crate::zpack::{ZPack, ZPackView};
use vstd::prelude::*;
use vstd::utf8::*;

verus! {

/// The error of an operation before the client is initialized.
pub open spec fn not_initialized() -> ErrorView {
    ErrorView::Internal("ZHTClient not initialized — call init() first"@)
}

/// A request for an operation on texts.
pub open spec fn text_request(
    code: Seq<char>,
    key: Seq<char>,
    val: Seq<char>,
    newval: Seq<char>,
    lease: Seq<char>,
) -> ZPackView {
    ZPackView {
        opcode: encode_utf8(code),
        key: encode_utf8(key),
        val: encode_utf8(val),
        newval: encode_utf8(newval),
        lease: encode_utf8(lease),
        valnull: false,
    }
}

/// The status of a response: the first three bytes of its lease.
pub open spec fn status_of(response: ZPackView) -> Seq<char> {
    if response.lease.len() >= 3 {
        text_of(response.lease.take(3))
    } else {
        text_of(response.lease)
    }
}

/// Parse the 3-character status code from a ZPack response's lease field.
pub fn parse_status(zpack: &ZPack) -> (r: String)
    ensures
        r@ == status_of(zpack@),
{
    if zpack.lease.len() >= 3 {
        let first = copy_range(&zpack.lease, 0, 3);
        assert(first@ =~= zpack.lease@.take(3));
        text_lossy(&first)
    } else {
        text_lossy(&zpack.lease)
    }
}

// ── What responses mean ─────────────────────────────────────────────────

/// What the response to an INSERT means.
pub open spec fn insert_outcome(response: ZPackView) -> Result<(), ErrorView> {
    let status = status_of(response);
    if status == REC_SUCC@ {
        Ok(())
    } else if status == REC_EMPTYKEY@ {
        Err(ErrorView::EmptyKey)
    } else if status == REC_SRVFAIL@ {
        Err(ErrorView::Internal("Server error on INSERT"@))
    } else {
        Err(ErrorView::Internal("INSERT failed: "@ + status))
    }
}

/// What the response to a LOOKUP means. A response that says success brings the
/// value behind the status, or else in its value field.
pub open spec fn lookup_outcome(key: Seq<char>, response: ZPackView) -> Result<
    Seq<char>,
    ErrorView,
> {
    let status = status_of(response);
    let lease = text_of(response.lease);
    if status == REC_NONEXISTKEY@ {
        Err(ErrorView::KeyNotFound(key))
    } else if status != REC_SUCC@ {
        Err(ErrorView::Internal("LOOKUP failed: "@ + status))
    } else if lease.len() > 3 {
        Ok(lease.skip(3))
    } else {
        Ok(text_of(response.val))
    }
}

/// What the response to a REMOVE means.
pub open spec fn remove_outcome(key: Seq<char>, response: ZPackView) -> Result<(), ErrorView> {
    let status = status_of(response);
    if status == REC_SUCC@ {
        Ok(())
    } else if status == REC_NONEXISTKEY@ {
        Err(ErrorView::KeyNotFound(key))
    } else {
        Err(ErrorView::Internal("REMOVE failed: "@ + status))
    }
}

/// What the response to an APPEND means.
pub open spec fn append_outcome(response: ZPackView) -> Result<(), ErrorView> {
    let status = status_of(response);
    if status == REC_SUCC@ {
        Ok(())
    } else if status == REC_SRVFAIL@ {
        Err(ErrorView::Internal("Server error on APPEND"@))
    } else {
        Err(ErrorView::Internal("APPEND failed: "@ + status))
    }
}

/// What the response to a COMPARE_SWAP means: after a swap the current value is
/// the new one, and otherwise the one that the response brings.
pub open spec fn compare_swap_outcome(
    key: Seq<char>,
    new_value: Seq<char>,
    response: ZPackView,
) -> Result<Seq<char>, ErrorView> {
    let status = status_of(response);
    if status == REC_NONEXISTKEY@ {
        Err(ErrorView::KeyNotFound(key))
    } else if status == REC_SUCC@ {
        Ok(new_value)
    } else {
        Ok(text_of(response.val))
    }
}

/// What the response to a STATE_CHANGE_CALLBACK means.
pub open spec fn callback_outcome(lease_ms: u64, response: ZPackView) -> Result<(), ErrorView> {
    let status = status_of(response);
    if status == REC_SUCC@ {
        Ok(())
    } else if status == REC_SCCBPOLLTRY@ {
        Err(ErrorView::LeaseExpired { lease_ms })
    } else {
        Err(ErrorView::Internal("SCCB failed: "@ + status))
    }
}

/// Whether a result is the given outcome.
pub open spec fn is_outcome(r: ZhtResult<()>, outcome: Result<(), ErrorView>) -> bool {
    match r {
        Ok(_) => outcome is Ok,
        Err(e) => outcome == Err::<(), ErrorView>(e@),
    }
}

/// Whether a result is the given outcome.
pub open spec fn is_text_outcome(r: ZhtResult<String>, outcome: Result<Seq<char>, ErrorView>) -> bool {
    match r {
        Ok(v) => outcome == Ok::<Seq<char>, ErrorView>(v@),
        Err(e) => outcome == Err::<Seq<char>, ErrorView>(e@),
    }
}

// ── The client ──────────────────────────────────────────────────────────

/// The ZHT client for performing distributed hash table operations.
pub struct ZHTClient {
    config: AppConfig,
    initialized: bool,
}

impl ZHTClient {
    /// The configuration is well-formed.
    pub closed spec fn wf(&self) -> bool {
        self.config.zht.wf()
    }

    /// The parameters of the configuration.
    pub closed spec fn parameters(&self) -> Map<Seq<char>, Seq<char>> {
        self.config.zht@
    }

    /// The nodes of the cluster.
    pub closed spec fn nodes(&self) -> Seq<(Seq<char>, u16)> {
        self.config.neighbors@
    }

    /// The paths of the configuration files.
    pub closed spec fn conf_paths(&self) -> (Seq<char>, Seq<char>) {
        (self.config.zht.conf_path(), self.config.neighbors.neighbor_conf_path@)
    }

    /// Whether operations can be performed.
    pub closed spec fn is_ready(&self) -> bool {
        self.initialized
    }

    /// What is to be sent for a request on `key`: the request, to the node that
    /// the key belongs to. Before the client is initialized there is nothing to
    /// send, and neither is there for an empty key or where there is no node.
    pub open spec fn routed(&self, key: Seq<char>, request: ZPackView) -> Result<
        ((Seq<char>, u16), ZPackView),
        ErrorView,
    > {
        if !self.is_ready() {
            Err(not_initialized())
        } else if key.len() == 0 {
            Err(ErrorView::EmptyKey)
        } else {
            match owner(key, self.nodes()) {
                Some(node) => Ok((node, request)),
                None => Err(ErrorView::NoDestinationNode(key)),
            }
        }
    }

    /// Whether a result is what is to be sent.
    pub open spec fn is_routed(
        &self,
        r: ZhtResult<Outgoing>,
        key: Seq<char>,
        request: ZPackView,
    ) -> bool {
        match r {
            Ok(message) => self.routed(key, request) == Ok::<_, ErrorView>(message@),
            Err(e) => self.routed(key, request) == Err::<((Seq<char>, u16), ZPackView), ErrorView>(
                e@,
            ),
        }
    }

    /// Create a new ZHT client from the contents of its configuration files.
    ///
    /// Operations can be performed once `init()` was called.
    pub fn new(
        zht_conf: &str,
        zht_file: FileContents,
        neighbor_conf: &str,
        neighbor_file: FileContents,
    ) -> (r: ZhtResult<ZHTClient>)
        ensures
            match zht_file {
                FileContents::Missing => r matches Err(e) && e@ == (ErrorView::ConfigNotFound {
                    path: zht_conf@,
                }),
                FileContents::Unreadable(reason) => r matches Err(e) && e@ == (
                ErrorView::ConfigParseError { path: zht_conf@, reason: reason@ }),
                FileContents::Text(parameters) => match neighbor_file {
                    FileContents::Missing => r matches Err(e) && e@ == (ErrorView::ConfigNotFound {
                        path: neighbor_conf@,
                    }),
                    FileContents::Unreadable(reason) => r matches Err(e) && e@ == (
                    ErrorView::ConfigParseError { path: neighbor_conf@, reason: reason@ }),
                    FileContents::Text(nodes) => match neighbors_of(
                        lines_of(nodes@),
                        neighbor_conf@,
                    ) {
                        Ok(neighbors) => {
                            &&& r matches Ok(client)
                            &&& client.wf()
                            &&& client.parameters() == parameters_of(lines_of(parameters@))
                            &&& client.nodes() == neighbors
                            &&& client.conf_paths() == (zht_conf@, neighbor_conf@)
                            &&& !client.is_ready()
                        },
                        Err(error) => r matches Err(e) && e@ == error,
                    },
                },
            },
    {
        match AppConfig::load(zht_conf, zht_file, neighbor_conf, neighbor_file) {
            Ok(config) => Ok(ZHTClient { config, initialized: false }),
            Err(e) => Err(e),
        }
    }

    /// Initialize the client.
    ///
    /// Must be called before any DHT operations. Doing so again changes nothing.
    pub fn init(&mut self)
        ensures
            final(self).is_ready(),
            final(self).wf() == old(self).wf(),
            final(self).nodes() == old(self).nodes(),
            final(self).parameters() == old(self).parameters(),
            final(self).conf_paths() == old(self).conf_paths(),
    {
        self.initialized = true;
    }

    /// Tear down the client.
    pub fn teardown(&mut self)
        ensures
            !final(self).is_ready(),
            final(self).wf() == old(self).wf(),
            final(self).nodes() == old(self).nodes(),
            final(self).parameters() == old(self).parameters(),
            final(self).conf_paths() == old(self).conf_paths(),
    {
        self.initialized = false;
    }

    /// Whether the client has been initialized.
    pub fn is_initialized(&self) -> (r: bool)
        ensures
            r == self.is_ready(),
    {
        self.initialized
    }

    /// Get a reference to the configuration.
    pub fn config(&self) -> (r: &AppConfig)
        ensures
            self.wf() ==> r.zht.wf(),
            r.zht@ == self.parameters(),
            r.neighbors@ == self.nodes(),
            (r.zht.conf_path(), r.neighbors.neighbor_conf_path@) == self.conf_paths(),
    {
        &self.config
    }

    fn ensure_initialized(&self) -> (r: ZhtResult<()>)
        ensures
            r is Ok <==> self.is_ready(),
            r matches Err(e) ==> e@ == not_initialized(),
    {
        if !self.initialized {
            return Err(
                ZhtError::Internal("ZHTClient not initialized — call init() first".to_owned()),
            );
        }
        Ok(())
    }

    fn check_key(&self, key: &str) -> (r: ZhtResult<()>)
        ensures
            r is Ok <==> key@.len() > 0,
            r matches Err(e) ==> e@ == ErrorView::EmptyKey,
    {
        if key.is_empty() {
            Err(ZhtError::EmptyKey)
        } else {
            Ok(())
        }
    }

    fn request(&self, code: &str, key: &str, val: &str, newval: &str, lease: &str) -> (r: ZhtResult<
        Outgoing,
    >)
        ensures
            self.is_routed(r, key@, text_request(code@, key@, val@, newval@, lease@)),
    {
        match self.ensure_initialized() {
            Ok(()) => {},
            Err(e) => {
                return Err(e);
            },
        }
        match self.check_key(key) {
            Ok(()) => {},
            Err(e) => {
                return Err(e);
            },
        }
        match self.config.resolve_node(key) {
            Ok(node) => Ok(
                Outgoing {
                    host: node.clone(),
                    request: ZPack {
                        opcode: utf8_bytes(code),
                        key: utf8_bytes(key),
                        val: utf8_bytes(val),
                        newval: utf8_bytes(newval),
                        lease: utf8_bytes(lease),
                        valnull: false,
                    },
                },
            ),
            Err(e) => Err(e),
        }
    }

    /// Insert a key-value pair into the DHT: the message to send.
    pub fn insert(&self, key: &str, value: &str) -> (r: ZhtResult<Outgoing>)
        ensures
            self.is_routed(r, key@, text_request(OPC_INSERT@, key@, value@, ""@, ""@)),
    {
        self.request(OPC_INSERT, key, value, "", "")
    }

    /// The outcome of an insert: success where the server responds with "000".
    pub fn on_insert(&self, response: &ZPack) -> (r: ZhtResult<()>)
        ensures
            is_outcome(r, insert_outcome(response@)),
    {
        let status = parse_status(response);
        if same_text(&status, REC_SUCC) {
            Ok(())
        } else if same_text(&status, REC_EMPTYKEY) {
            Err(ZhtError::EmptyKey)
        } else if same_text(&status, REC_SRVFAIL) {
            Err(ZhtError::Internal("Server error on INSERT".to_owned()))
        } else {
            Err(ZhtError::Internal(join2("INSERT failed: ", &status)))
        }
    }

    /// Look up a value by key: the message to send.
    pub fn lookup(&self, key: &str) -> (r: ZhtResult<Outgoing>)
        ensures
            self.is_routed(r, key@, text_request(OPC_LOOKUP@, key@, ""@, ""@, ""@)),
    {
        self.request(OPC_LOOKUP, key, "", "", "")
    }

    /// The outcome of a lookup: the value associated with the key, or an error
    /// if not found.
    pub fn on_lookup(&self, key: &str, response: &ZPack) -> (r: ZhtResult<String>)
        ensures
            is_text_outcome(r, lookup_outcome(key@, response@)),
    {
        let status = parse_status(response);
        if same_text(&status, REC_NONEXISTKEY) {
            return Err(ZhtError::KeyNotFound(key.to_owned()));
        }
        if !same_text(&status, REC_SUCC) {
            return Err(ZhtError::Internal(join2("LOOKUP failed: ", &status)));
        }
        let lease = chars_of(&text_lossy(&response.lease));
        if lease.len() > 3 {
            let value = substring_of(&lease, 3, lease.len());
            assert(value@ =~= lease@.skip(3));
            Ok(value)
        } else {
            Ok(text_lossy(&response.val))
        }
    }

    /// Remove a key from the DHT: the message to send.
    pub fn remove(&self, key: &str) -> (r: ZhtResult<Outgoing>)
        ensures
            self.is_routed(r, key@, text_request(OPC_REMOVE@, key@, ""@, ""@, ""@)),
    {
        self.request(OPC_REMOVE, key, "", "", "")
    }

    /// The outcome of a remove.
    pub fn on_remove(&self, key: &str, response: &ZPack) -> (r: ZhtResult<()>)
        ensures
            is_outcome(r, remove_outcome(key@, response@)),
    {
        let status = parse_status(response);
        if same_text(&status, REC_SUCC) {
            Ok(())
        } else if same_text(&status, REC_NONEXISTKEY) {
            Err(ZhtError::KeyNotFound(key.to_owned()))
        } else {
            Err(ZhtError::Internal(join2("REMOVE failed: ", &status)))
        }
    }

    /// Append data to an existing key's value: the message to send.
    pub fn append(&self, key: &str, value: &str) -> (r: ZhtResult<Outgoing>)
        ensures
            self.is_routed(r, key@, text_request(OPC_APPEND@, key@, value@, ""@, ""@)),
    {
        self.request(OPC_APPEND, key, value, "", "")
    }

    /// The outcome of an append.
    pub fn on_append(&self, response: &ZPack) -> (r: ZhtResult<()>)
        ensures
            is_outcome(r, append_outcome(response@)),
    {
        let status = parse_status(response);
        if same_text(&status, REC_SUCC) {
            Ok(())
        } else if same_text(&status, REC_SRVFAIL) {
            Err(ZhtError::Internal("Server error on APPEND".to_owned()))
        } else {
            Err(ZhtError::Internal(join2("APPEND failed: ", &status)))
        }
    }

    /// Atomically compare-and-swap a value: the message to send.
    ///
    /// If the current value for `key` matches `expected`, it is replaced with
    /// `new_value`.
    pub fn compare_swap(&self, key: &str, expected: &str, new_value: &str) -> (r: ZhtResult<Outgoing>)
        ensures
            self.is_routed(r, key@, text_request(OPC_CMPSWP@, key@, expected@, new_value@, ""@)),
    {
        self.request(OPC_CMPSWP, key, expected, new_value, "")
    }

    /// The outcome of a compare-and-swap: the actual current value, regardless
    /// of whether the swap succeeded.
    pub fn on_compare_swap(&self, key: &str, new_value: &str, response: &ZPack) -> (r: ZhtResult<
        String,
    >)
        ensures
            is_text_outcome(r, compare_swap_outcome(key@, new_value@, response@)),
    {
        let status = parse_status(response);
        if same_text(&status, REC_NONEXISTKEY) {
            return Err(ZhtError::KeyNotFound(key.to_owned()));
        }
        if same_text(&status, REC_SUCC) {
            return Ok(new_value.to_owned());
        }
        Ok(text_lossy(&response.val))
    }

    /// State change callback: wait until the key's value matches the expected
    /// value, for `lease_ms` milliseconds at most. The message to send.
    pub fn state_change_callback(&self, key: &str, expected: &str, lease_ms: u64) -> (r: ZhtResult<
        Outgoing,
    >)
        ensures
            self.is_routed(
                r,
                key@,
                text_request(OPC_STCHGCB@, key@, expected@, ""@, decimal(lease_ms as nat)),
            ),
    {
        self.request(OPC_STCHGCB, key, expected, "", &decimal_of(lease_ms))
    }

    /// The outcome of a state change callback: success where the value was
    /// there in time, an error where the lease expired.
    pub fn on_state_change_callback(&self, lease_ms: u64, response: &ZPack) -> (r: ZhtResult<()>)
        ensures
            is_outcome(r, callback_outcome(lease_ms, response@)),
    {
        let status = parse_status(response);
        if same_text(&status, REC_SUCC) {
            Ok(())
        } else if same_text(&status, REC_SCCBPOLLTRY) {
            Err(ZhtError::LeaseExpired { lease_ms })
        } else {
            Err(ZhtError::Internal(join2("SCCB failed: ", &status)))
        }
    }
}

// ── What a client gets back from a worker ───────────────────────────────

proof fn lemma_request_parts(
    code: Seq<char>,
    key: Seq<char>,
    val: Seq<char>,
    newval: Seq<char>,
    lease: Seq<char>,
)
    ensures
        ({
            let r = text_request(code, key, val, newval, lease);
            &&& text_of(r.opcode) == code
            &&& text_of(r.key) == key
            &&& text_of(r.val) == val
            &&& text_of(r.newval) == newval
            &&& text_of(r.lease) == lease
        }),
{
    law_text_round_trip(code);
    law_text_round_trip(key);
    law_text_round_trip(val);
    law_text_round_trip(newval);
    law_text_round_trip(lease);
}

/// A response whose lease is a status of three ASCII characters and then any
/// text has that status.
proof fn lemma_status(response: ZPackView, status: Seq<char>, rest: Seq<char>)
    requires
        response.lease == encode_utf8(status + rest),
        status.len() == 3,
        is_ascii_chars(status),
    ensures
        status_of(response) == status,
        text_of(response.lease) == status + rest,
{
    lemma_utf8_concat(status, rest);
    is_ascii_chars_encode_utf8(status);
    assert(response.lease.take(3) =~= encode_utf8(status));
    law_text_round_trip(status);
    law_text_round_trip(status + rest);
}

proof fn lemma_known_statuses()
    ensures
        REC_SUCC@.len() == 3,
        is_ascii_chars(REC_SUCC@),
        REC_NONEXISTKEY@.len() == 3,
        is_ascii_chars(REC_NONEXISTKEY@),
        REC_CLTFAIL@.len() == 3,
        is_ascii_chars(REC_CLTFAIL@),
        REC_SCCBPOLLTRY@.len() == 3,
        is_ascii_chars(REC_SCCBPOLLTRY@),
        REC_SUCC@ != REC_SCCBPOLLTRY@,
        REC_SUCC@ != REC_NONEXISTKEY@,
        REC_SUCC@ != REC_CLTFAIL@,
        REC_CLTFAIL@ != REC_NONEXISTKEY@,
{
    reveal_strlit("000");
    reveal_strlit("-92");
    reveal_strlit("-02");
    reveal_strlit("-04");
    assert(REC_SUCC@[0] == '0' && REC_NONEXISTKEY@[0] == '-' && REC_CLTFAIL@[0] == '-');
    assert(REC_SCCBPOLLTRY@[0] == '-');
    assert(REC_NONEXISTKEY@[1] == '9' && REC_CLTFAIL@[1] == '0');
}

proof fn lemma_plain_status(response: ZPackView, status: Seq<char>)
    requires
        response.lease == encode_utf8(status),
        status.len() == 3,
        is_ascii_chars(status),
    ensures
        status_of(response) == status,
        text_of(response.lease) == status,
{
    assert(status + Seq::<char>::empty() =~= status);
    lemma_status(response, status, Seq::empty());
}

/// An insert succeeds, and a lookup of its key then gives back the value that
/// was inserted.
pub proof fn law_insert_then_lookup_gives_value(
    m: Map<Seq<char>, Seq<char>>,
    key: Seq<char>,
    value: Seq<char>,
)
    requires
        key.len() > 0,
    ensures
        ({
            let insert = text_request(OPC_INSERT@, key, value, ""@, ""@);
            let lookup = text_request(OPC_LOOKUP@, key, ""@, ""@, ""@);
            let after = stored(m, insert);
            &&& insert_outcome(answer(m, insert)) is Ok
            &&& lookup_outcome(key, answer(after, lookup)) == Ok::<_, ErrorView>(value)
        }),
{
    let insert = text_request(OPC_INSERT@, key, value, ""@, ""@);
    let lookup = text_request(OPC_LOOKUP@, key, ""@, ""@, ""@);
    let after = stored(m, insert);
    lemma_request_parts(OPC_INSERT@, key, value, ""@, ""@);
    lemma_request_parts(OPC_LOOKUP@, key, ""@, ""@, ""@);
    law_codes_name_operations(insert.key, insert.val, insert.newval);
    law_codes_name_operations(lookup.key, lookup.val, lookup.newval);
    lemma_known_statuses();
    lemma_plain_status(answer(m, insert), REC_SUCC@);
    lemma_status(answer(after, lookup), REC_SUCC@, value);
    law_text_round_trip(value);
    if value.len() > 0 {
        assert((REC_SUCC@ + value).skip(3) =~= value);
    } else {
        assert(value =~= Seq::empty());
    }
}

/// A remove of a key that is there succeeds, and a lookup of the key then says
/// that it is not found; so does a second remove.
pub proof fn law_remove_then_not_found(m: Map<Seq<char>, Seq<char>>, key: Seq<char>)
    requires
        key.len() > 0,
        m.contains_key(key),
    ensures
        ({
            let remove = text_request(OPC_REMOVE@, key, ""@, ""@, ""@);
            let lookup = text_request(OPC_LOOKUP@, key, ""@, ""@, ""@);
            let after = stored(m, remove);
            &&& remove_outcome(key, answer(m, remove)) is Ok
            &&& lookup_outcome(key, answer(after, lookup)) == Err::<Seq<char>, ErrorView>(
                ErrorView::KeyNotFound(key),
            )
            &&& remove_outcome(key, answer(after, remove)) == Err::<(), ErrorView>(
                ErrorView::KeyNotFound(key),
            )
        }),
{
    let remove = text_request(OPC_REMOVE@, key, ""@, ""@, ""@);
    let lookup = text_request(OPC_LOOKUP@, key, ""@, ""@, ""@);
    let after = stored(m, remove);
    lemma_request_parts(OPC_REMOVE@, key, ""@, ""@, ""@);
    lemma_request_parts(OPC_LOOKUP@, key, ""@, ""@, ""@);
    law_codes_name_operations(remove.key, remove.val, remove.newval);
    law_codes_name_operations(lookup.key, lookup.val, lookup.newval);
    lemma_known_statuses();
    lemma_plain_status(answer(m, remove), REC_SUCC@);
    lemma_plain_status(answer(after, lookup), REC_NONEXISTKEY@);
    lemma_plain_status(answer(after, remove), REC_NONEXISTKEY@);
}

/// An append succeeds, and a lookup of the key then gives the old value, a
/// colon and the new value, or the new value alone where there was none.
pub proof fn law_append_then_lookup_gives_both(
    m: Map<Seq<char>, Seq<char>>,
    key: Seq<char>,
    value: Seq<char>,
)
    requires
        key.len() > 0,
    ensures
        ({
            let append = text_request(OPC_APPEND@, key, value, ""@, ""@);
            let lookup = text_request(OPC_LOOKUP@, key, ""@, ""@, ""@);
            let after = stored(m, append);
            &&& append_outcome(answer(m, append)) is Ok
            &&& lookup_outcome(key, answer(after, lookup)) == Ok::<_, ErrorView>(
                appended_value(m, key, value),
            )
            &&& lookup_outcome(key, answer(after, lookup)) == Ok::<_, ErrorView>(
                if m.contains_key(key) {
                    m[key] + seq![':'] + value
                } else {
                    value
                },
            )
        }),
{
    law_append_keeps_both(m, key, value);
    let append = text_request(OPC_APPEND@, key, value, ""@, ""@);
    let lookup = text_request(OPC_LOOKUP@, key, ""@, ""@, ""@);
    let after = stored(m, append);
    let v = appended_value(m, key, value);
    lemma_request_parts(OPC_APPEND@, key, value, ""@, ""@);
    lemma_request_parts(OPC_LOOKUP@, key, ""@, ""@, ""@);
    law_codes_name_operations(append.key, append.val, append.newval);
    law_codes_name_operations(lookup.key, lookup.val, lookup.newval);
    lemma_known_statuses();
    lemma_plain_status(answer(m, append), REC_SUCC@);
    lemma_status(answer(after, lookup), REC_SUCC@, v);
    law_text_round_trip(v);
    if v.len() > 0 {
        assert((REC_SUCC@ + v).skip(3) =~= v);
    } else {
        assert(v =~= Seq::empty());
    }
}

/// A compare-and-swap with the current value, or on a key that has none, stores
/// the new value; with another value it changes nothing. The client gets the
/// actual current value either way.
pub proof fn law_compare_swap_gives_current_value(
    m: Map<Seq<char>, Seq<char>>,
    key: Seq<char>,
    expected: Seq<char>,
    new_value: Seq<char>,
)
    requires
        key.len() > 0,
    ensures
        ({
            let swap = text_request(OPC_CMPSWP@, key, expected, new_value, ""@);
            let after = stored(m, swap);
            &&& !m.contains_key(key) || m[key] == expected ==> after == m.insert(key, new_value)
            &&& m.contains_key(key) && m[key] != expected ==> after == m
            &&& compare_swap_outcome(key, new_value, answer(m, swap)) == Ok::<_, ErrorView>(
                after[key],
            )
        }),
{
    let swap = text_request(OPC_CMPSWP@, key, expected, new_value, ""@);
    lemma_request_parts(OPC_CMPSWP@, key, expected, new_value, ""@);
    law_codes_name_operations(swap.key, swap.val, swap.newval);
    lemma_known_statuses();
    if swaps(m, key, expected) {
        lemma_plain_status(answer(m, swap), REC_SUCC@);
    } else {
        assert(stored(m, swap) =~= m);
        lemma_plain_status(answer(m, swap), REC_CLTFAIL@);
        law_text_round_trip(m[key]);
    }
}

/// A state change callback waits for the value and the time that the client
/// gave. Once the value is there the client is told of success, and once the
/// time is used up, that the lease has expired.
pub proof fn law_callback_waits_as_asked(
    key: Seq<char>,
    expected: Seq<char>,
    lease_ms: u64,
    callback: &PendingCallback,
)
    requires
        key.len() > 0,
        callback.is_for(text_request(OPC_STCHGCB@, key, expected, ""@, decimal(lease_ms as nat))),
    ensures
        is_callback(text_request(OPC_STCHGCB@, key, expected, ""@, decimal(lease_ms as nat))),
        callback.watched@ == key,
        callback.expected@ == expected,
        callback.lease_ms == lease_ms,
        callback_outcome(lease_ms, callback.response(REC_SUCC@)) is Ok,
        callback_outcome(lease_ms, callback.response(REC_SCCBPOLLTRY@)) == Err::<(), _>(
            ErrorView::LeaseExpired { lease_ms },
        ),
{
    let lease = decimal(lease_ms as nat);
    let request = text_request(OPC_STCHGCB@, key, expected, ""@, lease);
    lemma_request_parts(OPC_STCHGCB@, key, expected, ""@, lease);
    law_codes_name_operations(request.key, request.val, request.newval);
    law_decimal_round_trip(lease_ms as nat, u64::MAX as nat);
    lemma_known_statuses();
    lemma_plain_status(callback.response(REC_SUCC@), REC_SUCC@);
    lemma_plain_status(callback.response(REC_SCCBPOLLTRY@), REC_SCCBPOLLTRY@);
}

/// All clients of a cluster send the operations on a key to the same node.
pub proof fn law_same_key_same_node(a: &ZHTClient, b: &ZHTClient, key: Seq<char>, x: ZPackView, y: ZPackView)
    requires
        a.nodes() == b.nodes(),
        a.is_ready(),
        b.is_ready(),
    ensures
        match (a.routed(key, x), b.routed(key, y)) {
            (Ok(p), Ok(q)) => p.0 == q.0 && p.1 == x && q.1 == y,
            (Err(e), Err(f)) => e == f,
            _ => false,
        },
{
}

/// A request holds the UTF-8 bytes of its parts.
pub proof fn law_text_request(
    code: Seq<char>,
    key: Seq<char>,
    val: Seq<char>,
    newval: Seq<char>,
    lease: Seq<char>,
)
    ensures
        text_request(code, key, val, newval, lease).opcode == encode_utf8(code),
        text_request(code, key, val, newval, lease).key == encode_utf8(key),
        text_request(code, key, val, newval, lease).val == encode_utf8(val),
        text_request(code, key, val, newval, lease).newval == encode_utf8(newval),
        text_request(code, key, val, newval, lease).lease == encode_utf8(lease),
        !text_request(code, key, val, newval, lease).valnull,
{
}

/// A client that is ready sends a request with a key to the node at the remainder
/// of the hash of the key by the count of nodes, as it is. Before it is ready,
/// without a key and without nodes there is nothing to send, and the error says
/// which.
pub proof fn law_requests_go_to_owner(client: &ZHTClient, key: Seq<char>, request: ZPackView)
    ensures
        ({
            let nodes = client.nodes();
            let sent = client.routed(key, request);
            &&& client.is_ready() && key.len() > 0 && nodes.len() > 0 ==> sent == Ok::<_, ErrorView>(
                (nodes[hash_bytes(encode_utf8(key)) % nodes.len() as int], request),
            )
            &&& !client.is_ready() ==> (sent matches Err(e) && e == ErrorView::Internal(
                "ZHTClient not initialized — call init() first"@,
            ))
            &&& client.is_ready() && key.len() == 0 ==> (sent matches Err(e) && e is EmptyKey)
            &&& client.is_ready() && key.len() > 0 && nodes.len() == 0 ==> (sent matches Err(e) && e
                == ErrorView::NoDestinationNode(key))
        }),
{
}

/// The status of a response is the text of the first three bytes of its lease, or
/// of all of them where there are fewer.
pub proof fn law_status_is_three_bytes(response: ZPackView)
    ensures
        response.lease.len() > 3 ==> status_of(response) == text_of(
            seq![response.lease[0], response.lease[1], response.lease[2]],
        ),
        response.lease.len() <= 3 ==> status_of(response) == text_of(response.lease),
{
    if response.lease.len() > 3 {
        assert(response.lease.take(3) =~= seq![
            response.lease[0],
            response.lease[1],
            response.lease[2],
        ]);
    } else if response.lease.len() == 3 {
        assert(response.lease.take(3) =~= response.lease);
    }
}

/// Exactly the status `000` is a success of an insert, a remove, an append and a
/// callback. Each other status is an error: an empty key, a missing key and an
/// expired lease are named, and any other one is told.
pub proof fn law_outcomes_by_status(key: Seq<char>, lease_ms: u64, response: ZPackView)
    ensures
        ({
            let status = status_of(response);
            &&& insert_outcome(response) is Ok <==> status == "000"@
            &&& remove_outcome(key, response) is Ok <==> status == "000"@
            &&& append_outcome(response) is Ok <==> status == "000"@
            &&& callback_outcome(lease_ms, response) is Ok <==> status == "000"@
            &&& status == "-01"@ ==> insert_outcome(response) == Err::<(), _>(ErrorView::EmptyKey)
            &&& status == "-92"@ ==> remove_outcome(key, response) == Err::<(), _>(
                ErrorView::KeyNotFound(key),
            )
            &&& status == "-04"@ ==> callback_outcome(lease_ms, response) == Err::<(), _>(
                ErrorView::LeaseExpired { lease_ms },
            )
            &&& status != "000"@ && status != "-01"@ && status != "-03"@ ==> insert_outcome(response)
                == Err::<(), _>(ErrorView::Internal("INSERT failed: "@ + status))
            &&& status == "-03"@ ==> insert_outcome(response) == Err::<(), _>(
                ErrorView::Internal("Server error on INSERT"@),
            ) && append_outcome(response) == Err::<(), _>(
                ErrorView::Internal("Server error on APPEND"@),
            )
            &&& status != "000"@ && status != "-92"@ ==> remove_outcome(key, response) == Err::<(), _>(
                ErrorView::Internal("REMOVE failed: "@ + status),
            )
            &&& status != "000"@ && status != "-03"@ ==> append_outcome(response) == Err::<(), _>(
                ErrorView::Internal("APPEND failed: "@ + status),
            )
            &&& status != "000"@ && status != "-04"@ ==> callback_outcome(lease_ms, response)
                == Err::<(), _>(ErrorView::Internal("SCCB failed: "@ + status))
        }),
{
    reveal_strlit("000");
    reveal_strlit("-01");
    reveal_strlit("-03");
    reveal_strlit("-04");
    reveal_strlit("-92");
    assert("000"@[0] == '0' && "-01"@[0] == '-' && "-03"@[0] == '-' && "-04"@[0] == '-' && "-92"@[0]
        == '-');
    assert("-01"@[2] == '1' && "-03"@[2] == '3' && "-04"@[2] == '4' && "-92"@[2] == '2');
}

/// A lookup brings the text behind the status, or the value field where there is
/// none; a status `-92` says that the key is not found, and any other one is told.
pub proof fn law_lookup_outcome(key: Seq<char>, response: ZPackView)
    ensures
        ({
            let status = status_of(response);
            let lease = text_of(response.lease);
            let found = lookup_outcome(key, response);
            &&& found is Ok <==> status == "000"@
            &&& status == "000"@ && lease.len() > 3 ==> found == Ok::<_, ErrorView>(
                lease.subrange(3, lease.len() as int),
            )
            &&& status == "000"@ && lease.len() <= 3 ==> found == Ok::<_, ErrorView>(
                text_of(response.val),
            )
            &&& status == "-92"@ ==> found == Err::<Seq<char>, _>(ErrorView::KeyNotFound(key))
            &&& status != "000"@ && status != "-92"@ ==> found == Err::<Seq<char>, _>(
                ErrorView::Internal("LOOKUP failed: "@ + status),
            )
        }),
{
    lemma_known_statuses();
    let lease = text_of(response.lease);
    if lease.len() > 3 {
        assert(lease.skip(3) =~= lease.subrange(3, lease.len() as int));
    }
}

/// A compare-and-swap gives the new value after a swap and otherwise the value
/// that the response brings; only a status `-92` is an error.
pub proof fn law_compare_swap_outcome(key: Seq<char>, new_value: Seq<char>, response: ZPackView)
    ensures
        ({
            let status = status_of(response);
            let outcome = compare_swap_outcome(key, new_value, response);
            &&& status == "000"@ ==> outcome == Ok::<_, ErrorView>(new_value)
            &&& status == "-92"@ ==> outcome == Err::<Seq<char>, _>(ErrorView::KeyNotFound(key))
            &&& status != "000"@ && status != "-92"@ ==> outcome == Ok::<_, ErrorView>(
                text_of(response.val),
            )
        }),
{
    lemma_known_statuses();
}

/// A result is an outcome where both are successes with the same value, or both are
/// errors and the same one.
pub proof fn law_is_outcome(
    r: ZhtResult<()>,
    outcome: Result<(), ErrorView>,
    t: ZhtResult<String>,
    found: Result<Seq<char>, ErrorView>,
)
    ensures
        is_outcome(r, outcome) <==> (r is Ok && outcome is Ok) || (r is Err && outcome is Err
            && r->Err_0@ == outcome->Err_0),
        is_text_outcome(t, found) <==> (t is Ok && found is Ok && t->Ok_0@ == found->Ok_0) || (t is Err
            && found is Err && t->Err_0@ == found->Err_0),
{
}

/// A result is what is to be sent where both are the same message, or the same
/// error.
pub proof fn law_is_routed(
    client: &ZHTClient,
    r: ZhtResult<Outgoing>,
    key: Seq<char>,
    request: ZPackView,
)
    ensures
        client.is_routed(r, key, request) <==> {
            let sent = client.routed(key, request);
            ||| r is Ok && sent is Ok && r->Ok_0.host@ == sent->Ok_0.0 && r->Ok_0.request@
                == sent->Ok_0.1
            ||| r is Err && sent is Err && r->Err_0@ == sent->Err_0
        },
{
}

} // verus!
