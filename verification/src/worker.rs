//! HTWorker: the server-side request processor.
//!
//! A request names its operation by its opcode. The worker performs it on its
//! [`NoVoHT`] and answers with a response whose lease holds the status.

use crate::constants::{
    OPC_APPEND, OPC_CMPSWP, OPC_INSERT, OPC_LOOKUP, OPC_REMOVE, OPC_STCHGCB, REC_CLTFAIL,
    REC_EMPTYKEY, REC_NONEXISTKEY, REC_SCCBPOLLTRY, REC_SRVFAIL, REC_SUCC, REC_UOPC,
    SCCB_POLL_DEFAULT_INTERVAL,
};
use crate::novoht::{
    appended_value, entry_line, law_append_keeps_both, law_line_format, removal_line, swapped_value,
    swaps, NoVoHT,
};
use crate::number::{decimal, law_decimal_round_trip, parse_unsigned, ParseText};
use crate::text::{
    copy_bytes, has_prefix, join2, law_bytes_round_trip, law_text_round_trip, lemma_utf8_concat,
    lemma_utf8_injective, same_text, text_lossy, text_of, utf8_bytes,
};
use crate::zpack::{empty_zpack, ZPack, ZPackView};
use vstd::prelude::*;
use vstd::utf8::*;

verus! {

// ── Operations ──────────────────────────────────────────────────────────

/// The operations that a worker performs.
#[derive(Debug, Clone, Copy, PartialEq, Eq, Structural)]
pub enum Operation {
    /// Retrieve value by key.
    Lookup,
    /// Delete a key-value pair.
    Remove,
    /// Create or overwrite a key-value pair.
    Insert,
    /// Append data to an existing key's value.
    Append,
    /// Atomic compare-and-swap.
    CompareSwap,
    /// Wait until a key has the expected value or the lease expires.
    StateChangeCallback,
    /// Anything else.
    Unrecognized,
}

/// The operation that an operation code names.
pub open spec fn operation(code: Seq<char>) -> Operation {
    if code == OPC_LOOKUP@ {
        Operation::Lookup
    } else if code == OPC_INSERT@ {
        Operation::Insert
    } else if code == OPC_REMOVE@ {
        Operation::Remove
    } else if code == OPC_APPEND@ {
        Operation::Append
    } else if code == OPC_CMPSWP@ {
        Operation::CompareSwap
    } else if code == OPC_STCHGCB@ {
        Operation::StateChangeCallback
    } else {
        Operation::Unrecognized
    }
}

impl Operation {
    /// The operation that an operation code names.
    pub fn from_code(code: &str) -> (r: Operation)
        ensures
            r == operation(code@),
    {
        if same_text(code, OPC_LOOKUP) {
            Operation::Lookup
        } else if same_text(code, OPC_INSERT) {
            Operation::Insert
        } else if same_text(code, OPC_REMOVE) {
            Operation::Remove
        } else if same_text(code, OPC_APPEND) {
            Operation::Append
        } else if same_text(code, OPC_CMPSWP) {
            Operation::CompareSwap
        } else if same_text(code, OPC_STCHGCB) {
            Operation::StateChangeCallback
        } else {
            Operation::Unrecognized
        }
    }
}

/// The operation of a request.
pub open spec fn request_operation(request: ZPackView) -> Operation {
    operation(text_of(request.opcode))
}

// ── What a request does ─────────────────────────────────────────────────

/// The response with a status and no value.
pub open spec fn status_response(request: ZPackView, status: Seq<char>) -> ZPackView {
    ZPackView {
        opcode: request.opcode,
        key: request.key,
        lease: encode_utf8(status),
        ..empty_zpack()
    }
}

/// Whether a request is answered only when a value appears or time runs out.
pub open spec fn is_callback(request: ZPackView) -> bool {
    text_of(request.key).len() > 0 && request_operation(request) is StateChangeCallback
}

/// The response to a request that is answered at once, on the table `m`.
pub open spec fn answer(m: Map<Seq<char>, Seq<char>>, request: ZPackView) -> ZPackView {
    let key = text_of(request.key);
    if key.len() == 0 {
        status_response(request, REC_EMPTYKEY@)
    } else {
        match request_operation(request) {
            Operation::Lookup => if m.contains_key(key) {
                ZPackView {
                    val: encode_utf8(m[key]),
                    ..status_response(request, REC_SUCC@ + m[key])
                }
            } else {
                ZPackView { valnull: true, ..status_response(request, REC_NONEXISTKEY@) }
            },
            Operation::Insert => status_response(request, REC_SUCC@),
            Operation::Remove => if m.contains_key(key) {
                status_response(request, REC_SUCC@)
            } else {
                status_response(request, REC_NONEXISTKEY@)
            },
            Operation::Append => status_response(request, REC_SUCC@),
            Operation::CompareSwap => if swaps(m, key, text_of(request.val)) {
                status_response(request, REC_SUCC@)
            } else {
                ZPackView {
                    val: encode_utf8(m[key]),
                    ..status_response(request, REC_CLTFAIL@)
                }
            },
            _ => status_response(request, REC_UOPC@),
        }
    }
}

/// Whether a response says success: its lease begins with that status.
pub open spec fn says_success(response: ZPackView) -> bool {
    has_prefix(response.lease, encode_utf8(REC_SUCC@))
}

/// Whether a response says that the key is empty.
pub open spec fn says_empty_key(response: ZPackView) -> bool {
    response.lease == encode_utf8(REC_EMPTYKEY@)
}

/// The table after a request.
pub open spec fn stored(m: Map<Seq<char>, Seq<char>>, request: ZPackView) -> Map<
    Seq<char>,
    Seq<char>,
> {
    let key = text_of(request.key);
    let value = text_of(request.val);
    if key.len() == 0 {
        m
    } else {
        match request_operation(request) {
            Operation::Insert => m.insert(key, value),
            Operation::Remove => m.remove(key),
            Operation::Append => m.insert(key, appended_value(m, key, value)),
            Operation::CompareSwap => m.insert(
                key,
                swapped_value(m, key, value, text_of(request.newval)),
            ),
            _ => m,
        }
    }
}

/// The line that a request adds to the journal of a persistent table, if any.
pub open spec fn recorded(m: Map<Seq<char>, Seq<char>>, request: ZPackView) -> Option<Seq<char>> {
    let key = text_of(request.key);
    if key.len() == 0 {
        None
    } else {
        match request_operation(request) {
            Operation::Insert | Operation::Append | Operation::CompareSwap => Some(
                entry_line(key, stored(m, request)[key]),
            ),
            Operation::Remove => if m.contains_key(key) {
                Some(removal_line(key))
            } else {
                None
            },
            _ => None,
        }
    }
}

/// Operation-level metrics tracked by `HTWorker`. A counter starts again at
/// zero after its largest value.
#[derive(Debug)]
pub struct HTWorkerMetrics {
    /// Total number of operations processed.
    pub total_operations: u64,
    /// Total number of errors encountered.
    pub total_errors: u64,
    /// Number of INSERT operations.
    pub insert_count: u64,
    /// Number of INSERT errors (empty key, server failure).
    pub insert_errors: u64,
    /// Number of LOOKUP operations.
    pub lookup_count: u64,
    /// Number of LOOKUP errors (empty key, key not found).
    pub lookup_errors: u64,
    /// Number of REMOVE operations.
    pub remove_count: u64,
    /// Number of REMOVE errors (empty key, key not found).
    pub remove_errors: u64,
    /// Number of APPEND operations.
    pub append_count: u64,
    /// Number of APPEND errors (empty key, server failure).
    pub append_errors: u64,
    /// Number of COMPARE_SWAP operations.
    pub compare_swap_count: u64,
    /// Number of COMPARE_SWAP errors (empty key, mismatch).
    pub compare_swap_errors: u64,
    /// Number of STATE_CHANGE_CALLBACK operations.
    pub state_change_callback_count: u64,
    /// Number of STATE_CHANGE_CALLBACK errors (empty key, lease expired).
    pub state_change_callback_errors: u64,
    /// Number of unrecognized opcode operations.
    pub unrecognized_count: u64,
}

/// One more where `yes` holds. A counter starts again at zero after its
/// largest value.
pub open spec fn plus(n: u64, yes: bool) -> u64 {
    if yes {
        n.wrapping_add(1)
    } else {
        n
    }
}

impl HTWorkerMetrics {
    /// The counters after one more operation with the given key and outcome.
    pub open spec fn counting(self, op: Operation, empty_key: bool, failed: bool) -> HTWorkerMetrics {
        HTWorkerMetrics {
            total_operations: self.total_operations.wrapping_add(1),
            total_errors: plus(self.total_errors, failed),
            insert_count: plus(self.insert_count, !empty_key && op is Insert),
            insert_errors: plus(self.insert_errors, failed && op is Insert),
            lookup_count: plus(self.lookup_count, !empty_key && op is Lookup),
            lookup_errors: plus(self.lookup_errors, failed && op is Lookup),
            remove_count: plus(self.remove_count, !empty_key && op is Remove),
            remove_errors: plus(self.remove_errors, failed && op is Remove),
            append_count: plus(self.append_count, !empty_key && op is Append),
            append_errors: plus(self.append_errors, failed && op is Append),
            compare_swap_count: plus(self.compare_swap_count, !empty_key && op is CompareSwap),
            compare_swap_errors: plus(self.compare_swap_errors, failed && op is CompareSwap),
            state_change_callback_count: plus(
                self.state_change_callback_count,
                !empty_key && op is StateChangeCallback,
            ),
            state_change_callback_errors: plus(
                self.state_change_callback_errors,
                failed && op is StateChangeCallback,
            ),
            unrecognized_count: plus(self.unrecognized_count, !empty_key && op is Unrecognized),
        }
    }

    /// The counters after a callback ran out of time.
    pub open spec fn counting_expiry(self) -> HTWorkerMetrics {
        HTWorkerMetrics {
            total_errors: self.total_errors.wrapping_add(1),
            state_change_callback_errors: self.state_change_callback_errors.wrapping_add(1),
            ..self
        }
    }

    fn count(&mut self, op: Operation, empty_key: bool, failed: bool)
        ensures
            *final(self) == old(self).counting(op, empty_key, failed),
    {
        self.total_operations = self.total_operations.wrapping_add(1);
        if failed {
            self.total_errors = self.total_errors.wrapping_add(1);
        }
        match op {
            Operation::Insert => {
                if !empty_key {
                    self.insert_count = self.insert_count.wrapping_add(1);
                }
                if failed {
                    self.insert_errors = self.insert_errors.wrapping_add(1);
                }
            },
            Operation::Lookup => {
                if !empty_key {
                    self.lookup_count = self.lookup_count.wrapping_add(1);
                }
                if failed {
                    self.lookup_errors = self.lookup_errors.wrapping_add(1);
                }
            },
            Operation::Remove => {
                if !empty_key {
                    self.remove_count = self.remove_count.wrapping_add(1);
                }
                if failed {
                    self.remove_errors = self.remove_errors.wrapping_add(1);
                }
            },
            Operation::Append => {
                if !empty_key {
                    self.append_count = self.append_count.wrapping_add(1);
                }
                if failed {
                    self.append_errors = self.append_errors.wrapping_add(1);
                }
            },
            Operation::CompareSwap => {
                if !empty_key {
                    self.compare_swap_count = self.compare_swap_count.wrapping_add(1);
                }
                if failed {
                    self.compare_swap_errors = self.compare_swap_errors.wrapping_add(1);
                }
            },
            Operation::StateChangeCallback => {
                if !empty_key {
                    self.state_change_callback_count = self.state_change_callback_count.wrapping_add(1);
                }
                if failed {
                    self.state_change_callback_errors = self.state_change_callback_errors.wrapping_add(1);
                }
            },
            Operation::Unrecognized => {
                if !empty_key {
                    self.unrecognized_count = self.unrecognized_count.wrapping_add(1);
                }
            },
        }
    }
}

impl Default for HTWorkerMetrics {
    fn default() -> (r: HTWorkerMetrics)
        ensures
            r == zero_metrics(),
    {
        HTWorkerMetrics {
            total_operations: 0,
            total_errors: 0,
            insert_count: 0,
            insert_errors: 0,
            lookup_count: 0,
            lookup_errors: 0,
            remove_count: 0,
            remove_errors: 0,
            append_count: 0,
            append_errors: 0,
            compare_swap_count: 0,
            compare_swap_errors: 0,
            state_change_callback_count: 0,
            state_change_callback_errors: 0,
            unrecognized_count: 0,
        }
    }
}

/// Metrics in which nothing was counted yet.
pub open spec fn zero_metrics() -> HTWorkerMetrics {
    HTWorkerMetrics {
        total_operations: 0,
        total_errors: 0,
        insert_count: 0,
        insert_errors: 0,
        lookup_count: 0,
        lookup_errors: 0,
        remove_count: 0,
        remove_errors: 0,
        append_count: 0,
        append_errors: 0,
        compare_swap_count: 0,
        compare_swap_errors: 0,
        state_change_callback_count: 0,
        state_change_callback_errors: 0,
        unrecognized_count: 0,
    }
}

impl Clone for HTWorkerMetrics {
    fn clone(&self) -> (r: HTWorkerMetrics)
        ensures
            r == *self,
    {
        HTWorkerMetrics {
            total_operations: self.total_operations,
            total_errors: self.total_errors,
            insert_count: self.insert_count,
            insert_errors: self.insert_errors,
            lookup_count: self.lookup_count,
            lookup_errors: self.lookup_errors,
            remove_count: self.remove_count,
            remove_errors: self.remove_errors,
            append_count: self.append_count,
            append_errors: self.append_errors,
            compare_swap_count: self.compare_swap_count,
            compare_swap_errors: self.compare_swap_errors,
            state_change_callback_count: self.state_change_callback_count,
            state_change_callback_errors: self.state_change_callback_errors,
            unrecognized_count: self.unrecognized_count,
        }
    }
}

/// Whether a request that is answered at once is refused.
pub open spec fn is_refused(m: Map<Seq<char>, Seq<char>>, request: ZPackView) -> bool {
    let key = text_of(request.key);
    ||| key.len() == 0
    ||| match request_operation(request) {
        Operation::Lookup => !m.contains_key(key),
        Operation::Remove => !m.contains_key(key),
        Operation::CompareSwap => !swaps(m, key, text_of(request.val)),
        Operation::Unrecognized => true,
        _ => false,
    }
}

// ── The worker ──────────────────────────────────────────────────────────

/// A state change callback that waits for its value.
#[derive(Debug)]
pub struct PendingCallback {
    /// Operation code of the request.
    pub opcode: Vec<u8>,
    /// Key of the request, as it came.
    pub key: Vec<u8>,
    /// Key that is watched.
    pub watched: String,
    /// Value that is awaited.
    pub expected: String,
    /// How long the value is awaited, in milliseconds.
    pub lease_ms: u64,
}

/// The lease of a callback request in milliseconds, or the default where the
/// request gives none that can be read.
pub open spec fn lease_of(request: ZPackView) -> u64 {
    match u64::parsed(text_of(request.lease)) {
        Some(ms) => ms,
        None => SCCB_POLL_DEFAULT_INTERVAL,
    }
}

impl PendingCallback {
    /// Whether this is the callback that a request asks for.
    pub open spec fn is_for(&self, request: ZPackView) -> bool {
        &&& self.opcode@ == request.opcode
        &&& self.key@ == request.key
        &&& self.watched@ == text_of(request.key)
        &&& self.expected@ == text_of(request.val)
        &&& self.lease_ms == lease_of(request)
    }

    /// Whether the awaited value is there.
    pub open spec fn is_met(&self, m: Map<Seq<char>, Seq<char>>) -> bool {
        m.contains_key(self.watched@) && m[self.watched@] == self.expected@
    }

    /// The response to the callback with a status.
    pub open spec fn response(&self, status: Seq<char>) -> ZPackView {
        ZPackView {
            opcode: self.opcode@,
            key: self.key@,
            lease: encode_utf8(status),
            ..empty_zpack()
        }
    }
}

/// What becomes of a request.
#[derive(Debug)]
pub enum Processed {
    /// The request is answered.
    Done(ZPack),
    /// The request waits for a value: it is to be polled.
    Waiting(PendingCallback),
}

impl Processed {
    /// The response, unless the request still waits.
    pub fn response(self) -> (r: Option<ZPack>)
        ensures
            match self {
                Processed::Done(z) => r == Some(z),
                Processed::Waiting(_) => r is None,
            },
    {
        match self {
            Processed::Done(z) => Some(z),
            Processed::Waiting(_) => None,
        }
    }
}

fn make_response(request: &ZPack, status: &str) -> (r: ZPack)
    ensures
        r@ == status_response(request@, status@),
{
    let mut r = ZPack::default();
    r.opcode = copy_bytes(&request.opcode);
    r.key = copy_bytes(&request.key);
    r.lease = utf8_bytes(status);
    assert(r@ =~= status_response(request@, status@));
    r
}

/// Server-side request processor that dispatches ZHT operations to the
/// `NoVoHT` storage engine and counts them.
///
/// | Opcode | Name                   | Description                                    |
/// |--------|------------------------|------------------------------------------------|
/// | `001`  | LOOKUP                 | Retrieve value by key                           |
/// | `002`  | REMOVE                 | Delete a key-value pair                         |
/// | `003`  | INSERT                 | Create or overwrite a key-value pair            |
/// | `004`  | APPEND                 | Append data to an existing key's value          |
/// | `005`  | COMPARE_SWAP           | Atomic compare-and-swap                         |
/// | `006`  | STATE_CHANGE_CALLBACK  | Wait until key matches expected value or lease expires |
pub struct HTWorker {
    store: NoVoHT,
    metrics: HTWorkerMetrics,
}

/// Whether a worker stands as a request leaves it: the table changed, the
/// change recorded, and the request counted.
pub open spec fn after_request(before: HTWorker, request: ZPackView, after: HTWorker) -> bool {
    let m = before.store_spec()@;
    &&& after.store_spec().same_file(&before.store_spec())
    &&& after.store_spec()@ == stored(m, request)
    &&& after.store_spec().pending() == (match recorded(m, request) {
        Some(line) => before.store_spec().pending_with(line),
        None => before.store_spec().pending(),
    })
    &&& after.metrics_spec() == before.metrics_spec().counting(
        request_operation(request),
        text_of(request.key).len() == 0,
        is_refused(m, request),
    )
}

/// Whether a worker stands as a poll leaves it, and what the poll returned: a
/// callback whose value is there is answered with success, one whose lease is
/// used up with `"-04"`, which counts as an error, and any other one not yet.
pub open spec fn after_poll(
    before: HTWorker,
    callback: &PendingCallback,
    elapsed_ms: u64,
    r: Option<ZPack>,
    after: HTWorker,
) -> bool {
    &&& after.store_spec() == before.store_spec()
    &&& if callback.is_met(before.store_spec()@) {
        &&& r matches Some(z) && z@ == callback.response(REC_SUCC@)
        &&& after.metrics_spec() == before.metrics_spec()
    } else if elapsed_ms >= callback.lease_ms {
        &&& r matches Some(z) && z@ == callback.response(REC_SCCBPOLLTRY@)
        &&& after.metrics_spec() == before.metrics_spec().counting_expiry()
    } else {
        &&& r is None
        &&& after.metrics_spec() == before.metrics_spec()
    }
}

impl HTWorker {
    /// The store is well-formed.
    pub closed spec fn wf(&self) -> bool {
        self.store.wf()
    }

    /// The underlying storage engine.
    pub closed spec fn store_spec(&self) -> NoVoHT {
        self.store
    }

    /// The counters.
    pub closed spec fn metrics_spec(&self) -> HTWorkerMetrics {
        self.metrics
    }

    /// Create a new `HTWorker` with the given storage engine.
    pub fn new(store: NoVoHT) -> (r: HTWorker)
        requires
            store.wf(),
        ensures
            r.wf(),
            r.store_spec() == store,
            r.metrics_spec() == zero_metrics(),
    {
        HTWorker { store, metrics: HTWorkerMetrics::default() }
    }

    /// Get a reference to the underlying storage engine.
    pub fn store(&self) -> (r: &NoVoHT)
        ensures
            *r == self.store_spec(),
            self.wf() ==> r.wf(),
    {
        &self.store
    }

    /// Takes the lines that are to be appended to the database file.
    pub fn take_journal(&mut self) -> (r: String)
        requires
            old(self).wf(),
        ensures
            final(self).wf(),
            r@ == old(self).store_spec().pending(),
            final(self).store_spec().pending() == Seq::<char>::empty(),
            final(self).store_spec()@ == old(self).store_spec()@,
            final(self).store_spec().same_file(&old(self).store_spec()),
            final(self).metrics_spec() == old(self).metrics_spec(),
    {
        self.store.take_journal()
    }

    /// Retrieve a snapshot of the worker's operation metrics.
    pub fn metrics(&self) -> (r: HTWorkerMetrics)
        ensures
            r == self.metrics_spec(),
    {
        self.metrics.clone()
    }

    /// Process a single `ZPack` request.
    ///
    /// A state change callback comes back as [`Processed::Waiting`], to be
    /// polled with [`HTWorker::poll`]; every other request is answered.
    ///
    /// # Response Fields
    /// - `opcode`: Echoed from the request.
    /// - `key`: Echoed from the request.
    /// - `val`: Populated for LOOKUP responses (the retrieved value) and
    ///   COMPARE_SWAP mismatches (the current value).
    /// - `lease`: Encoded status code:
    ///   - `"000..."` = success (LOOKUP appends the value after the status)
    ///   - `"-01"` = empty key error
    ///   - `"-02"` = CAS mismatch
    ///   - `"-04"` = state change callback lease expired
    ///   - `"-92"` = non-existent key
    ///   - `"-98"` = unrecognized opcode
    ///
    /// Exactly the requests whose key has no bytes are told that the key is
    /// empty. A response that does not say success is counted as an error, and
    /// nothing is stored then.
    pub fn process(&mut self, request: &ZPack) -> (r: Processed)
        requires
            old(self).wf(),
        ensures
            final(self).wf(),
            after_request(*old(self), request@, *final(self)),
            match r {
                Processed::Done(response) => !is_callback(request@) && response@ == answer(
                    old(self).store_spec()@,
                    request@,
                ),
                Processed::Waiting(callback) => is_callback(request@) && callback.is_for(request@),
            },
            final(self).metrics_spec().total_operations
                == old(self).metrics_spec().total_operations.wrapping_add(1),
            r matches Processed::Done(response) ==> {
                &&& response.opcode@ == request.opcode@
                &&& response.key@ == request.key@
                &&& says_empty_key(response@) <==> request.key@.len() == 0
                &&& final(self).metrics_spec().total_errors == plus(
                    old(self).metrics_spec().total_errors,
                    !says_success(response@),
                )
                &&& !says_success(response@) ==> final(self).store_spec()@ == old(self).store_spec()@
            },
            r is Waiting ==> {
                &&& request.key@.len() > 0
                &&& final(self).metrics_spec().total_errors
                    == old(self).metrics_spec().total_errors
                &&& final(self).store_spec()@ == old(self).store_spec()@
            },
    {
        let opcode = text_lossy(&request.opcode);
        let key = text_lossy(&request.key);
        proof {
            let m = self.store_spec()@;
            lemma_no_text();
            if !is_callback(request@) {
                law_success_iff_not_refused(m, request@);
            }
            if is_refused(m, request@) {
                law_refused_changes_nothing(m, request@);
            }
        }
        let op = Operation::from_code(&opcode);
        if key.as_str().is_empty() {
            self.metrics.count(op, true, true);
            return Processed::Done(make_response(request, REC_EMPTYKEY));
        }
        match op {
            Operation::Lookup => {
                let found = self.store.get(&key);
                match found {
                    Ok(val) => {
                        self.metrics.count(op, false, false);
                        let mut response = make_response(request, &join2(REC_SUCC, &val));
                        response.val = utf8_bytes(&val);
                        Processed::Done(response)
                    },
                    Err(_) => {
                        self.metrics.count(op, false, true);
                        let mut response = make_response(request, REC_NONEXISTKEY);
                        response.valnull = true;
                        Processed::Done(response)
                    },
                }
            },
            Operation::Insert => {
                let val = text_lossy(&request.val);
                match self.store.put(&key, &val) {
                    Ok(()) => {
                        self.metrics.count(op, false, false);
                        Processed::Done(make_response(request, REC_SUCC))
                    },
                    Err(_) => {
                        self.metrics.count(op, false, true);
                        Processed::Done(make_response(request, REC_SRVFAIL))
                    },
                }
            },
            Operation::Remove => {
                match self.store.remove(&key) {
                    Ok(()) => {
                        self.metrics.count(op, false, false);
                        Processed::Done(make_response(request, REC_SUCC))
                    },
                    Err(_) => {
                        self.metrics.count(op, false, true);
                        assert(stored(old(self).store_spec()@, request@)
                            =~= old(self).store_spec()@);
                        Processed::Done(make_response(request, REC_NONEXISTKEY))
                    },
                }
            },
            Operation::Append => {
                let val = text_lossy(&request.val);
                match self.store.append(&key, &val) {
                    Ok(()) => {
                        self.metrics.count(op, false, false);
                        Processed::Done(make_response(request, REC_SUCC))
                    },
                    Err(_) => {
                        self.metrics.count(op, false, true);
                        Processed::Done(make_response(request, REC_SRVFAIL))
                    },
                }
            },
            Operation::CompareSwap => {
                let expected = text_lossy(&request.val);
                let new_val = text_lossy(&request.newval);
                let matches = match self.store.get(&key) {
                    Ok(current) => current == expected,
                    Err(_) => true,
                };
                match self.store.compare_swap(&key, &expected, &new_val) {
                    Ok(actual) => if matches {
                        self.metrics.count(op, false, false);
                        Processed::Done(make_response(request, REC_SUCC))
                    } else {
                        self.metrics.count(op, false, true);
                        let mut response = make_response(request, REC_CLTFAIL);
                        response.val = utf8_bytes(&actual);
                        Processed::Done(response)
                    },
                    Err(_) => {
                        self.metrics.count(op, false, true);
                        Processed::Done(make_response(request, REC_NONEXISTKEY))
                    },
                }
            },
            Operation::StateChangeCallback => {
                self.metrics.count(op, false, false);
                let lease_ms: u64 = match u64::parse_text(&text_lossy(&request.lease)) {
                    Some(ms) => ms,
                    None => SCCB_POLL_DEFAULT_INTERVAL,
                };
                Processed::Waiting(
                    PendingCallback {
                        opcode: copy_bytes(&request.opcode),
                        key: copy_bytes(&request.key),
                        watched: key,
                        expected: text_lossy(&request.val),
                        lease_ms,
                    },
                )
            },
            Operation::Unrecognized => {
                self.metrics.count(op, false, true);
                Processed::Done(make_response(request, REC_UOPC))
            },
        }
    }

    /// Looks whether a waiting callback can be answered: with success when the
    /// value is there, with `"-04"` when `elapsed_ms` milliseconds have used up
    /// its lease. Otherwise it is to be polled again after the poll interval.
    pub fn poll(&mut self, callback: &PendingCallback, elapsed_ms: u64) -> (r: Option<ZPack>)
        requires
            old(self).wf(),
        ensures
            final(self).wf(),
            after_poll(*old(self), callback, elapsed_ms, r, *final(self)),
            final(self).metrics_spec().total_operations
                == old(self).metrics_spec().total_operations,
            final(self).metrics_spec().total_errors == plus(
                old(self).metrics_spec().total_errors,
                r matches Some(response) && !says_success(response@),
            ),
            r matches Some(response) ==> {
                &&& says_success(response@) <==> callback.is_met(old(self).store_spec()@)
                &&& !says_empty_key(response@)
            },
            final(self).store_spec() == old(self).store_spec(),
            ({
                let m = old(self).store_spec()@;
                let met = m.contains_key(callback.watched@) && m[callback.watched@]
                    == callback.expected@;
                &&& r is None <==> !met && elapsed_ms < callback.lease_ms
                &&& r matches Some(response) ==> {
                    &&& response.opcode@ == callback.opcode@
                    &&& response.key@ == callback.key@
                    &&& response.lease@ == encode_utf8(if met { "000"@ } else { "-04"@ })
                    &&& response.val@.len() == 0
                    &&& response.newval@.len() == 0
                    &&& !response.valnull
                }
            }),
    {
        proof {
            lemma_status_says(REC_SUCC@, Seq::empty());
            lemma_status_says(REC_SCCBPOLLTRY@, Seq::empty());
            lemma_statuses();
            assert(REC_SUCC@ + Seq::<char>::empty() =~= REC_SUCC@);
            assert(REC_SCCBPOLLTRY@ + Seq::<char>::empty() =~= REC_SCCBPOLLTRY@);
        }
        let met = match self.store.get(&callback.watched) {
            Ok(current) => current == callback.expected,
            Err(_) => false,
        };
        if !met && elapsed_ms < callback.lease_ms {
            return None;
        }
        let mut response = ZPack::default();
        response.opcode = copy_bytes(&callback.opcode);
        response.key = copy_bytes(&callback.key);
        if met {
            response.lease = utf8_bytes(REC_SUCC);
            assert(response@ =~= callback.response(REC_SUCC@));
        } else {
            self.metrics.total_errors = self.metrics.total_errors.wrapping_add(1);
            self.metrics.state_change_callback_errors = self.metrics.state_change_callback_errors.wrapping_add(1);
            response.lease = utf8_bytes(REC_SCCBPOLLTRY);
            assert(response@ =~= callback.response(REC_SCCBPOLLTRY@));
        }
        Some(response)
    }
}

// ── Laws ────────────────────────────────────────────────────────────────

/// A request for the operation `code` with the given key and values.
pub open spec fn request_for(code: Seq<char>, key: Seq<u8>, val: Seq<u8>, newval: Seq<u8>) -> ZPackView {
    ZPackView { opcode: encode_utf8(code), key, val, newval, ..empty_zpack() }
}

proof fn lemma_operations()
    ensures
        operation(OPC_LOOKUP@) is Lookup,
        operation(OPC_INSERT@) is Insert,
        operation(OPC_REMOVE@) is Remove,
        operation(OPC_APPEND@) is Append,
        operation(OPC_CMPSWP@) is CompareSwap,
        operation(OPC_STCHGCB@) is StateChangeCallback,
{
    reveal_strlit("001");
    reveal_strlit("002");
    reveal_strlit("003");
    reveal_strlit("004");
    reveal_strlit("005");
    reveal_strlit("006");
    assert(OPC_LOOKUP@[2] == '1' && OPC_REMOVE@[2] == '2' && OPC_INSERT@[2] == '3' && OPC_APPEND@[2]
        == '4' && OPC_CMPSWP@[2] == '5' && OPC_STCHGCB@[2] == '6');
}

/// The six codes name the six operations.
pub proof fn law_codes_name_operations(key: Seq<u8>, val: Seq<u8>, newval: Seq<u8>)
    ensures
        request_operation(request_for(OPC_LOOKUP@, key, val, newval)) is Lookup,
        request_operation(request_for(OPC_INSERT@, key, val, newval)) is Insert,
        request_operation(request_for(OPC_REMOVE@, key, val, newval)) is Remove,
        request_operation(request_for(OPC_APPEND@, key, val, newval)) is Append,
        request_operation(request_for(OPC_CMPSWP@, key, val, newval)) is CompareSwap,
        request_operation(request_for(OPC_STCHGCB@, key, val, newval)) is StateChangeCallback,
{
    lemma_operations();
    law_text_round_trip(OPC_LOOKUP@);
    law_text_round_trip(OPC_INSERT@);
    law_text_round_trip(OPC_REMOVE@);
    law_text_round_trip(OPC_APPEND@);
    law_text_round_trip(OPC_CMPSWP@);
    law_text_round_trip(OPC_STCHGCB@);
}

/// Looking up a key after inserting a value under it succeeds and answers with
/// that value; UTF-8 bytes come back unchanged.
pub proof fn law_insert_then_lookup(m: Map<Seq<char>, Seq<char>>, key: Seq<u8>, value: Seq<u8>)
    requires
        text_of(key).len() > 0,
    ensures
        ({
            let after = stored(m, request_for(OPC_INSERT@, key, value, Seq::empty()));
            let found = answer(after, request_for(OPC_LOOKUP@, key, Seq::empty(), Seq::empty()));
            &&& found.val == encode_utf8(text_of(value))
            &&& found.lease == encode_utf8(REC_SUCC@ + text_of(value))
            &&& !found.valnull
            &&& valid_utf8(value) ==> found.val == value
        }),
{
    law_codes_name_operations(key, value, Seq::empty());
    law_codes_name_operations(key, Seq::empty(), Seq::empty());
    if valid_utf8(value) {
        law_bytes_round_trip(value);
    }
}

/// Looking up a key after removing it says that there is none.
pub proof fn law_remove_then_lookup(m: Map<Seq<char>, Seq<char>>, key: Seq<u8>)
    requires
        text_of(key).len() > 0,
    ensures
        ({
            let after = stored(m, request_for(OPC_REMOVE@, key, Seq::empty(), Seq::empty()));
            let found = answer(after, request_for(OPC_LOOKUP@, key, Seq::empty(), Seq::empty()));
            &&& found.lease == encode_utf8(REC_NONEXISTKEY@)
            &&& found.valnull
        }),
{
    law_codes_name_operations(key, Seq::empty(), Seq::empty());
}

/// A request that is refused leaves the table as it was.
pub proof fn law_refused_changes_nothing(m: Map<Seq<char>, Seq<char>>, request: ZPackView)
    requires
        is_refused(m, request),
    ensures
        stored(m, request) == m,
{
    assert(stored(m, request) =~= m);
}

/// A request changes at most the entry of its own key.
pub proof fn law_other_keys_unchanged(
    m: Map<Seq<char>, Seq<char>>,
    request: ZPackView,
    other: Seq<char>,
)
    requires
        other != text_of(request.key),
    ensures
        stored(m, request).contains_key(other) == m.contains_key(other),
        m.contains_key(other) ==> stored(m, request)[other] == m[other],
{
}

/// The statuses of success and of each refusal are three characters and differ.
proof fn lemma_statuses()
    ensures
        REC_SUCC@.len() == 3,
        REC_SUCC@[0] == '0',
        is_ascii_chars(REC_SUCC@),
        is_ascii_chars(REC_EMPTYKEY@),
        is_ascii_chars(REC_NONEXISTKEY@),
        is_ascii_chars(REC_CLTFAIL@),
        is_ascii_chars(REC_UOPC@),
        is_ascii_chars(REC_SCCBPOLLTRY@),
        REC_NONEXISTKEY@ != REC_EMPTYKEY@,
        REC_CLTFAIL@ != REC_EMPTYKEY@,
        REC_UOPC@ != REC_EMPTYKEY@,
        REC_SCCBPOLLTRY@ != REC_EMPTYKEY@,
        REC_EMPTYKEY@.len() == 3,
        REC_EMPTYKEY@[0] == '-',
        REC_NONEXISTKEY@.len() == 3,
        REC_NONEXISTKEY@[0] == '-',
        REC_CLTFAIL@.len() == 3,
        REC_CLTFAIL@[0] == '-',
        REC_UOPC@.len() == 3,
        REC_UOPC@[0] == '-',
        REC_SCCBPOLLTRY@.len() == 3,
        REC_SCCBPOLLTRY@[0] == '-',
{
    reveal_strlit("000");
    reveal_strlit("-01");
    reveal_strlit("-02");
    reveal_strlit("-04");
    reveal_strlit("-92");
    reveal_strlit("-98");
    assert(REC_EMPTYKEY@[1] == '0' && REC_EMPTYKEY@[2] == '1');
    assert(REC_NONEXISTKEY@[1] == '9' && REC_CLTFAIL@[2] == '2');
    assert(REC_UOPC@[1] == '9' && REC_SCCBPOLLTRY@[2] == '4');
}

/// Every response echoes the operation code and the key of its request.
pub proof fn law_response_echoes(m: Map<Seq<char>, Seq<char>>, request: ZPackView)
    ensures
        answer(m, request).opcode == request.opcode,
        answer(m, request).key == request.key,
{
}

/// Each refusal has its status: an empty key, a missing key, a mismatch and an
/// unknown operation are told apart.
pub proof fn law_refusal_status(m: Map<Seq<char>, Seq<char>>, request: ZPackView)
    requires
        is_refused(m, request),
    ensures
        answer(m, request).lease == encode_utf8(
            if text_of(request.key).len() == 0 {
                REC_EMPTYKEY@
            } else if request_operation(request) is CompareSwap {
                REC_CLTFAIL@
            } else if request_operation(request) is Unrecognized {
                REC_UOPC@
            } else {
                REC_NONEXISTKEY@
            },
        ),
{
}

proof fn lemma_no_text()
    ensures
        text_of(Seq::<u8>::empty()) == Seq::<char>::empty(),
{
    law_text_round_trip(Seq::empty());
    assert(encode_utf8(Seq::<char>::empty()) =~= Seq::<u8>::empty());
}

/// What a lease of a status and more text says.
proof fn lemma_status_says(status: Seq<char>, rest: Seq<char>)
    requires
        status == REC_SUCC@ || status == REC_EMPTYKEY@ || status == REC_NONEXISTKEY@ || status
            == REC_CLTFAIL@ || status == REC_UOPC@ || status == REC_SCCBPOLLTRY@,
        status != REC_SUCC@ ==> rest.len() == 0,
    ensures
        has_prefix(encode_utf8(status + rest), encode_utf8(REC_SUCC@)) <==> status == REC_SUCC@,
        encode_utf8(status + rest) == encode_utf8(REC_EMPTYKEY@) <==> status == REC_EMPTYKEY@,
{
    lemma_statuses();
    let lease = encode_utf8(status + rest);
    lemma_utf8_concat(status, rest);
    is_ascii_chars_encode_utf8(status);
    is_ascii_chars_encode_utf8(REC_SUCC@);
    assert(lease[0] == status[0] as u8);
    if status == REC_SUCC@ {
        assert(lease.take(3) =~= encode_utf8(REC_SUCC@));
    } else {
        assert(status + rest =~= status);
        if has_prefix(lease, encode_utf8(REC_SUCC@)) {
            assert(lease.take(3)[0] == encode_utf8(REC_SUCC@)[0]);
        }
    }
    if lease == encode_utf8(REC_EMPTYKEY@) {
        lemma_utf8_injective(status + rest, REC_EMPTYKEY@);
        assert((status + rest)[0] == status[0]);
        assert(status =~= (status + rest).take(3));
        assert(REC_EMPTYKEY@.take(3) =~= REC_EMPTYKEY@);
    } else if status == REC_EMPTYKEY@ {
        assert(status + rest =~= REC_EMPTYKEY@);
    }
}

/// A response to a request that is answered at once says success exactly where
/// the request is not refused, and that the key is empty exactly where its text
/// is.
pub proof fn law_success_iff_not_refused(m: Map<Seq<char>, Seq<char>>, request: ZPackView)
    requires
        !is_callback(request),
    ensures
        says_success(answer(m, request)) <==> !is_refused(m, request),
        says_empty_key(answer(m, request)) <==> text_of(request.key).len() == 0,
{
    let key = text_of(request.key);
    let none = Seq::<char>::empty();
    lemma_statuses();
    assert(REC_SUCC@ + none =~= REC_SUCC@);
    assert(REC_EMPTYKEY@ + none =~= REC_EMPTYKEY@);
    assert(REC_NONEXISTKEY@ + none =~= REC_NONEXISTKEY@);
    assert(REC_CLTFAIL@ + none =~= REC_CLTFAIL@);
    assert(REC_UOPC@ + none =~= REC_UOPC@);
    lemma_status_says(REC_SUCC@, none);
    lemma_status_says(REC_SUCC@, m[key]);
    lemma_status_says(REC_EMPTYKEY@, none);
    lemma_status_says(REC_NONEXISTKEY@, none);
    lemma_status_says(REC_CLTFAIL@, none);
    lemma_status_says(REC_UOPC@, none);
}

/// Counting keeps the errors within the operations, and an operation that is
/// not counted as an error leaves room for one.
pub proof fn law_errors_within_operations(
    c: HTWorkerMetrics,
    op: Operation,
    empty_key: bool,
    failed: bool,
)
    requires
        c.total_errors <= c.total_operations,
        c.total_operations < u64::MAX,
    ensures
        c.counting(op, empty_key, failed).total_errors <= c.counting(
            op,
            empty_key,
            failed,
        ).total_operations,
        !failed ==> c.counting(op, empty_key, failed).counting_expiry().total_errors <= c.counting(
            op,
            empty_key,
            failed,
        ).total_operations,
{
}

/// The six codes are `001` to `006`, and no other text names an operation.
pub proof fn law_operation_codes(code: Seq<char>)
    ensures
        operation(code) is Lookup <==> code == "001"@,
        operation(code) is Remove <==> code == "002"@,
        operation(code) is Insert <==> code == "003"@,
        operation(code) is Append <==> code == "004"@,
        operation(code) is CompareSwap <==> code == "005"@,
        operation(code) is StateChangeCallback <==> code == "006"@,
        operation(code) is Unrecognized <==> code != "001"@ && code != "002"@ && code != "003"@
            && code != "004"@ && code != "005"@ && code != "006"@,
{
    lemma_operations();
}

/// A request without a key is told so, whatever it asks for, and stores nothing.
pub proof fn law_request_without_key(m: Map<Seq<char>, Seq<char>>, request: ZPackView)
    requires
        request.key.len() == 0,
    ensures
        answer(m, request) == (ZPackView {
            opcode: request.opcode,
            key: Seq::empty(),
            val: Seq::empty(),
            newval: Seq::empty(),
            lease: encode_utf8("-01"@),
            valnull: false,
        }),
        stored(m, request) == m,
        recorded(m, request) is None,
        is_refused(m, request),
        !is_callback(request),
{
    lemma_no_text();
    assert(request.key =~= Seq::<u8>::empty());
}

/// A lookup is answered with `000` and the value, which also stands in the value
/// field, or with `-92` and the mark that there is none. It stores nothing.
pub proof fn law_lookup_request(m: Map<Seq<char>, Seq<char>>, request: ZPackView)
    requires
        text_of(request.opcode) == "001"@,
        text_of(request.key).len() > 0,
    ensures
        ({
            let key = text_of(request.key);
            &&& m.contains_key(key) ==> answer(m, request) == (ZPackView {
                opcode: request.opcode,
                key: request.key,
                val: encode_utf8(m[key]),
                newval: Seq::empty(),
                lease: encode_utf8("000"@ + m[key]),
                valnull: false,
            })
            &&& !m.contains_key(key) ==> answer(m, request) == (ZPackView {
                opcode: request.opcode,
                key: request.key,
                val: Seq::empty(),
                newval: Seq::empty(),
                lease: encode_utf8("-92"@),
                valnull: true,
            })
            &&& stored(m, request) == m
            &&& recorded(m, request) is None
            &&& is_refused(m, request) <==> !m.contains_key(key)
        }),
{
    law_operation_codes("001"@);
}

/// An insert stores its value under its key, in place of any that was there, and
/// records that; it always succeeds.
pub proof fn law_insert_request(m: Map<Seq<char>, Seq<char>>, request: ZPackView)
    requires
        text_of(request.opcode) == "003"@,
        text_of(request.key).len() > 0,
    ensures
        answer(m, request) == (ZPackView {
            opcode: request.opcode,
            key: request.key,
            val: Seq::empty(),
            newval: Seq::empty(),
            lease: encode_utf8("000"@),
            valnull: false,
        }),
        stored(m, request) == m.insert(text_of(request.key), text_of(request.val)),
        recorded(m, request) == Some(
            text_of(request.key) + seq!['\t'] + text_of(request.val) + seq!['\t'],
        ),
        !is_refused(m, request),
{
    law_operation_codes("003"@);
    law_line_format(text_of(request.key), text_of(request.val));
}

/// A remove takes out a key that is there, and records that; a key that is not
/// there is answered with `-92`.
pub proof fn law_remove_request(m: Map<Seq<char>, Seq<char>>, request: ZPackView)
    requires
        text_of(request.opcode) == "002"@,
        text_of(request.key).len() > 0,
    ensures
        ({
            let key = text_of(request.key);
            &&& answer(m, request) == (ZPackView {
                opcode: request.opcode,
                key: request.key,
                val: Seq::empty(),
                newval: Seq::empty(),
                lease: encode_utf8(
                    if m.contains_key(key) {
                        "000"@
                    } else {
                        "-92"@
                    },
                ),
                valnull: false,
            })
            &&& stored(m, request) == m.remove(key)
            &&& m.contains_key(key) ==> recorded(m, request) == Some(seq!['~'] + key + seq!['\t'])
            &&& !m.contains_key(key) ==> recorded(m, request) is None && stored(m, request) == m
            &&& is_refused(m, request) <==> !m.contains_key(key)
        }),
{
    law_operation_codes("002"@);
    law_line_format(text_of(request.key), Seq::empty());
    if !m.contains_key(text_of(request.key)) {
        assert(m.remove(text_of(request.key)) =~= m);
    }
}

/// An append puts its value behind the one that is there, after a colon, or stores
/// it alone; it records what is stored then, and always succeeds.
pub proof fn law_append_request(m: Map<Seq<char>, Seq<char>>, request: ZPackView)
    requires
        text_of(request.opcode) == "004"@,
        text_of(request.key).len() > 0,
    ensures
        ({
            let key = text_of(request.key);
            let value = if m.contains_key(key) {
                m[key] + seq![':'] + text_of(request.val)
            } else {
                text_of(request.val)
            };
            &&& answer(m, request) == (ZPackView {
                opcode: request.opcode,
                key: request.key,
                val: Seq::empty(),
                newval: Seq::empty(),
                lease: encode_utf8("000"@),
                valnull: false,
            })
            &&& stored(m, request) == m.insert(key, value)
            &&& recorded(m, request) == Some(key + seq!['\t'] + value + seq!['\t'])
            &&& !is_refused(m, request)
        }),
{
    let key = text_of(request.key);
    law_operation_codes("004"@);
    law_append_keeps_both(m, key, text_of(request.val));
    law_line_format(key, appended_value(m, key, text_of(request.val)));
}

/// A compare-and-swap whose expected value is there, or whose key has none, stores
/// the new value and is answered with `000`. Any other one stores nothing and is
/// answered with `-02` and the current value. What is stored then is recorded.
pub proof fn law_compare_swap_request(m: Map<Seq<char>, Seq<char>>, request: ZPackView)
    requires
        text_of(request.opcode) == "005"@,
        text_of(request.key).len() > 0,
    ensures
        ({
            let key = text_of(request.key);
            let new_value = text_of(request.newval);
            &&& !m.contains_key(key) || m[key] == text_of(request.val) ==> {
                &&& answer(m, request) == (ZPackView {
                    opcode: request.opcode,
                    key: request.key,
                    val: Seq::empty(),
                    newval: Seq::empty(),
                    lease: encode_utf8("000"@),
                    valnull: false,
                })
                &&& stored(m, request) == m.insert(key, new_value)
                &&& recorded(m, request) == Some(key + seq!['\t'] + new_value + seq!['\t'])
                &&& !is_refused(m, request)
            }
            &&& m.contains_key(key) && m[key] != text_of(request.val) ==> {
                &&& answer(m, request) == (ZPackView {
                    opcode: request.opcode,
                    key: request.key,
                    val: encode_utf8(m[key]),
                    newval: Seq::empty(),
                    lease: encode_utf8("-02"@),
                    valnull: false,
                })
                &&& stored(m, request) == m
                &&& recorded(m, request) == Some(key + seq!['\t'] + m[key] + seq!['\t'])
                &&& is_refused(m, request)
            }
        }),
{
    let key = text_of(request.key);
    law_operation_codes("005"@);
    law_line_format(key, text_of(request.newval));
    law_line_format(key, m[key]);
    if m.contains_key(key) && m[key] != text_of(request.val) {
        assert(m.insert(key, m[key]) =~= m);
    }
}

/// A request with an unknown code is answered with `-98` and does nothing; a state
/// change callback does nothing either, and is the one request that waits.
pub proof fn law_other_requests(m: Map<Seq<char>, Seq<char>>, request: ZPackView)
    requires
        text_of(request.key).len() > 0,
    ensures
        ({
            let code = text_of(request.opcode);
            let known = code == "001"@ || code == "002"@ || code == "003"@ || code == "004"@ || code
                == "005"@ || code == "006"@;
            &&& !known ==> {
                &&& answer(m, request) == (ZPackView {
                    opcode: request.opcode,
                    key: request.key,
                    val: Seq::empty(),
                    newval: Seq::empty(),
                    lease: encode_utf8("-98"@),
                    valnull: false,
                })
                &&& is_refused(m, request)
            }
            &&& !known || code == "006"@ ==> stored(m, request) == m && recorded(m, request) is None
            &&& is_callback(request) <==> code == "006"@
            &&& code == "006"@ ==> !is_refused(m, request)
        }),
{
    law_operation_codes(text_of(request.opcode));
}

/// How long a callback waits: as many milliseconds as its lease spells, or a
/// hundred where it spells no number.
pub proof fn law_callback_lease(request: ZPackView, ms: u64)
    ensures
        request.lease == encode_utf8(decimal(ms as nat)) ==> lease_of(request) == ms,
        parse_unsigned(text_of(request.lease), u64::MAX as nat) is None ==> lease_of(request) == 100,
        parse_unsigned(text_of(request.lease), u64::MAX as nat) == Some(ms as nat) ==> lease_of(
            request,
        ) == ms,
{
    law_text_round_trip(decimal(ms as nat));
    law_decimal_round_trip(ms as nat, u64::MAX as nat);
}

/// What is counted of an operation: one operation; one error where it failed; and
/// for its own kind one where there is a key, and one error where it failed. The
/// counters of other kinds stay.
pub proof fn law_counting(c: HTWorkerMetrics, op: Operation, empty_key: bool, failed: bool)
    ensures
        ({
            let d = c.counting(op, empty_key, failed);
            let tried = |kind: Operation| !empty_key && op == kind;
            let error = |kind: Operation| failed && op == kind;
            &&& d.total_operations == c.total_operations.wrapping_add(1)
            &&& d.total_errors == (if failed {
                c.total_errors.wrapping_add(1)
            } else {
                c.total_errors
            })
            &&& counted_if(c.insert_count, d.insert_count, tried(Operation::Insert))
            &&& counted_if(c.insert_errors, d.insert_errors, error(Operation::Insert))
            &&& counted_if(c.lookup_count, d.lookup_count, tried(Operation::Lookup))
            &&& counted_if(c.lookup_errors, d.lookup_errors, error(Operation::Lookup))
            &&& counted_if(c.remove_count, d.remove_count, tried(Operation::Remove))
            &&& counted_if(c.remove_errors, d.remove_errors, error(Operation::Remove))
            &&& counted_if(c.append_count, d.append_count, tried(Operation::Append))
            &&& counted_if(c.append_errors, d.append_errors, error(Operation::Append))
            &&& counted_if(c.compare_swap_count, d.compare_swap_count, tried(Operation::CompareSwap))
            &&& counted_if(
                c.compare_swap_errors,
                d.compare_swap_errors,
                error(Operation::CompareSwap),
            )
            &&& counted_if(
                c.state_change_callback_count,
                d.state_change_callback_count,
                tried(Operation::StateChangeCallback),
            )
            &&& counted_if(
                c.state_change_callback_errors,
                d.state_change_callback_errors,
                error(Operation::StateChangeCallback),
            )
            &&& counted_if(
                c.unrecognized_count,
                d.unrecognized_count,
                tried(Operation::Unrecognized),
            )
        }),
{
}

/// Whether a counter went from `before` to `after` by counting once more, or
/// stayed.
pub open spec fn counted_if(before: u64, after: u64, counts: bool) -> bool {
    if counts {
        after as int == (before + 1) % 0x1_0000_0000_0000_0000
    } else {
        after == before
    }
}

/// A counter that counts moves on by one, and back to zero after its largest value;
/// one that does not count stays.
pub proof fn law_counted_if(before: u64, after: u64)
    ensures
        counted_if(before, after, false) <==> after == before,
        before < u64::MAX ==> (counted_if(before, after, true) <==> after == before + 1),
        counted_if(u64::MAX, after, true) <==> after == 0,
{
}

/// A callback that runs out of time counts as one error, in all and of its kind,
/// and changes no other counter.
pub proof fn law_counting_expiry(c: HTWorkerMetrics)
    ensures
        ({
            let d = c.counting_expiry();
            &&& d.total_errors == c.total_errors.wrapping_add(1)
            &&& d.state_change_callback_errors == c.state_change_callback_errors.wrapping_add(1)
            &&& d == (HTWorkerMetrics {
                total_errors: d.total_errors,
                state_change_callback_errors: d.state_change_callback_errors,
                ..c
            })
        }),
{
}

/// What a request leaves behind in a worker: the table as the request makes it, in
/// the same file; one more line in its journal if the request records one; and the
/// request counted.
pub proof fn law_after_request(before: HTWorker, request: ZPackView, after: HTWorker)
    ensures
        after_request(before, request, after) <==> {
            let m = before.store_spec()@;
            &&& after.store_spec()@ == stored(m, request)
            &&& after.store_spec().path() == before.store_spec().path()
            &&& after.store_spec().is_persistent_spec() == before.store_spec().is_persistent_spec()
            &&& recorded(m, request) is None || !before.store_spec().is_persistent_spec()
                ==> after.store_spec().pending() == before.store_spec().pending()
            &&& recorded(m, request) is Some && before.store_spec().is_persistent_spec()
                ==> after.store_spec().pending() == before.store_spec().pending()
                + recorded(m, request)->0 + seq!['\n']
            &&& after.metrics_spec() == before.metrics_spec().counting(
                operation(text_of(request.opcode)),
                text_of(request.key).len() == 0,
                is_refused(m, request),
            )
        },
{
    let m = before.store_spec()@;
    match recorded(m, request) {
        Some(line) => {
            let pending = before.store_spec().pending();
            assert(pending + line.push('\n') =~= pending + line + seq!['\n']);
        },
        None => {},
    }
}

/// A poll leaves the store alone. It answers a callback whose value is there, or
/// whose time is used up, which counts as an error, and no other one.
pub proof fn law_after_poll(
    before: HTWorker,
    callback: &PendingCallback,
    elapsed_ms: u64,
    r: Option<ZPack>,
    after: HTWorker,
)
    ensures
        after_poll(before, callback, elapsed_ms, r, after) ==> {
            let m = before.store_spec()@;
            let met = m.contains_key(callback.watched@) && m[callback.watched@]
                == callback.expected@;
            let expired = !met && elapsed_ms >= callback.lease_ms;
            &&& after.store_spec() == before.store_spec()
            &&& r is Some <==> met || expired
            &&& r matches Some(z) ==> z@ == (ZPackView {
                opcode: callback.opcode@,
                key: callback.key@,
                val: Seq::empty(),
                newval: Seq::empty(),
                lease: encode_utf8(if met { "000"@ } else { "-04"@ }),
                valnull: false,
            })
            &&& expired ==> after.metrics_spec() == before.metrics_spec().counting_expiry()
            &&& !expired ==> after.metrics_spec() == before.metrics_spec()
        },
{
}

/// A callback keeps what its request asks for.
pub proof fn law_callback_is_for(callback: &PendingCallback, request: ZPackView)
    ensures
        callback.is_for(request) <==> {
            &&& callback.opcode@ == request.opcode
            &&& callback.key@ == request.key
            &&& callback.watched@ == text_of(request.key)
            &&& callback.expected@ == text_of(request.val)
            &&& callback.lease_ms == lease_of(request)
        },
{
}

/// New metrics have counted nothing.
pub proof fn law_zero_metrics()
    ensures
        ({
            let m = zero_metrics();
            &&& m.total_operations == 0 && m.total_errors == 0
            &&& m.insert_count == 0 && m.insert_errors == 0
            &&& m.lookup_count == 0 && m.lookup_errors == 0
            &&& m.remove_count == 0 && m.remove_errors == 0
            &&& m.append_count == 0 && m.append_errors == 0
            &&& m.compare_swap_count == 0 && m.compare_swap_errors == 0
            &&& m.state_change_callback_count == 0 && m.state_change_callback_errors == 0
            &&& m.unrecognized_count == 0
        }),
{
}

/// A response says success where its lease begins with the bytes of three zeros,
/// and that the key is empty where it is the bytes of `-01`.
pub proof fn law_what_responses_say(response: ZPackView)
    ensures
        says_success(response) <==> response.lease.len() >= 3 && response.lease[0] == 48
            && response.lease[1] == 48 && response.lease[2] == 48,
        says_empty_key(response) <==> response.lease == seq![45u8, 48u8, 49u8],
{
    lemma_statuses();
    reveal_strlit("000");
    reveal_strlit("-01");
    is_ascii_chars_encode_utf8(REC_SUCC@);
    is_ascii_chars_encode_utf8(REC_EMPTYKEY@);
    let zeros = encode_utf8(REC_SUCC@);
    assert(zeros =~= seq![48u8, 48u8, 48u8]);
    assert(encode_utf8(REC_EMPTYKEY@) =~= seq![45u8, 48u8, 49u8]);
    let lease = response.lease;
    if lease.len() >= 3 {
        let first = lease.take(3);
        assert(first[0] == lease[0] && first[1] == lease[1] && first[2] == lease[2]);
        if lease[0] == 48 && lease[1] == 48 && lease[2] == 48 {
            assert(first =~= zeros);
        } else if first == zeros {
            assert(zeros[0] == 48 && zeros[1] == 48 && zeros[2] == 48);
        }
    }
}

} // verus!
