//! The error type of every fallible operation, and its messages.

use crate::number::{decimal, decimal_of};
use crate::text::{join2, join4};
use vstd::prelude::*;

verus! {

/// The primary error type for ZHT operations.
#[derive(Debug)]
pub enum ZhtError {
    // ── Configuration errors ──────────────────────────────────────────
    /// A configuration file does not exist.
    ConfigNotFound { path: String },
    /// A configuration file cannot be read.
    ConfigParseError { path: String, reason: String },
    /// A required parameter is not set.
    MissingConfigParam { param: String },
    /// A parameter has a value that makes no sense.
    InvalidConfigValue { param: String, reason: String },
    // ── Network / Transport errors ────────────────────────────────────
    /// No connection could be made.
    ConnectionFailed { host: String, port: u16, reason: String },
    /// A message could not be sent.
    SendFailed(String),
    /// A message could not be received.
    RecvFailed(String),
    /// The named protocol is not available.
    UnsupportedProtocol(String),
    // ── DHT Operation errors ──────────────────────────────────────────
    /// The key of an operation is empty.
    EmptyKey,
    /// The key is not stored.
    KeyNotFound(String),
    /// The stored value is not the one that was expected.
    CasMismatch { expected: String, actual: String },
    /// The awaited value did not appear in time.
    LeaseExpired { lease_ms: u64 },
    /// No node can take the key.
    NoDestinationNode(String),
    // ── Storage errors ────────────────────────────────────────────────
    /// The store failed.
    StorageError(String),
    /// The database file could not be read or written.
    PersistenceError { path: String, reason: String },
    // ── Serialization errors ──────────────────────────────────────────
    /// A message could not be encoded.
    ProtobufEncodeError(String),
    /// A message could not be decoded.
    ProtobufDecodeError(String),
    // ── Generic ───────────────────────────────────────────────────────
    /// An operation took too long.
    Timeout { timeout_ms: u64 },
    /// The operation code is not known.
    UnrecognizedOpCode(String),
    /// Any other failure.
    Internal(String),
}

/// Convenience result alias for ZHT operations.
pub type ZhtResult<T> = Result<T, ZhtError>;

/// The mathematical value of a [`ZhtError`]: the same variants over texts.
pub enum ErrorView {
    ConfigNotFound { path: Seq<char> },
    ConfigParseError { path: Seq<char>, reason: Seq<char> },
    MissingConfigParam { param: Seq<char> },
    InvalidConfigValue { param: Seq<char>, reason: Seq<char> },
    ConnectionFailed { host: Seq<char>, port: u16, reason: Seq<char> },
    SendFailed(Seq<char>),
    RecvFailed(Seq<char>),
    UnsupportedProtocol(Seq<char>),
    EmptyKey,
    KeyNotFound(Seq<char>),
    CasMismatch { expected: Seq<char>, actual: Seq<char> },
    LeaseExpired { lease_ms: u64 },
    NoDestinationNode(Seq<char>),
    StorageError(Seq<char>),
    PersistenceError { path: Seq<char>, reason: Seq<char> },
    ProtobufEncodeError(Seq<char>),
    ProtobufDecodeError(Seq<char>),
    Timeout { timeout_ms: u64 },
    UnrecognizedOpCode(Seq<char>),
    Internal(Seq<char>),
}

impl View for ZhtError {
    type V = ErrorView;

    open spec fn view(&self) -> ErrorView {
        match *self {
            ZhtError::ConfigNotFound { path } => ErrorView::ConfigNotFound { path: path@ },
            ZhtError::ConfigParseError { path, reason } => ErrorView::ConfigParseError {
                path: path@,
                reason: reason@,
            },
            ZhtError::MissingConfigParam { param } => ErrorView::MissingConfigParam {
                param: param@,
            },
            ZhtError::InvalidConfigValue { param, reason } => ErrorView::InvalidConfigValue {
                param: param@,
                reason: reason@,
            },
            ZhtError::ConnectionFailed { host, port, reason } => ErrorView::ConnectionFailed {
                host: host@,
                port,
                reason: reason@,
            },
            ZhtError::SendFailed(s) => ErrorView::SendFailed(s@),
            ZhtError::RecvFailed(s) => ErrorView::RecvFailed(s@),
            ZhtError::UnsupportedProtocol(s) => ErrorView::UnsupportedProtocol(s@),
            ZhtError::EmptyKey => ErrorView::EmptyKey,
            ZhtError::KeyNotFound(s) => ErrorView::KeyNotFound(s@),
            ZhtError::CasMismatch { expected, actual } => ErrorView::CasMismatch {
                expected: expected@,
                actual: actual@,
            },
            ZhtError::LeaseExpired { lease_ms } => ErrorView::LeaseExpired { lease_ms },
            ZhtError::NoDestinationNode(s) => ErrorView::NoDestinationNode(s@),
            ZhtError::StorageError(s) => ErrorView::StorageError(s@),
            ZhtError::PersistenceError { path, reason } => ErrorView::PersistenceError {
                path: path@,
                reason: reason@,
            },
            ZhtError::ProtobufEncodeError(s) => ErrorView::ProtobufEncodeError(s@),
            ZhtError::ProtobufDecodeError(s) => ErrorView::ProtobufDecodeError(s@),
            ZhtError::Timeout { timeout_ms } => ErrorView::Timeout { timeout_ms },
            ZhtError::UnrecognizedOpCode(s) => ErrorView::UnrecognizedOpCode(s@),
            ZhtError::Internal(s) => ErrorView::Internal(s@),
        }
    }
}

/// The message of an error.
pub open spec fn error_message(e: ErrorView) -> Seq<char> {
    match e {
        ErrorView::ConfigNotFound { path } => "configuration file not found: "@ + path,
        ErrorView::ConfigParseError { path, reason } => "failed to parse configuration file: "@
            + path + ": "@ + reason,
        ErrorView::MissingConfigParam { param } => "missing required configuration parameter: "@
            + param,
        ErrorView::InvalidConfigValue { param, reason } => "invalid configuration value for '"@
            + param + "': "@ + reason,
        ErrorView::ConnectionFailed { host, port, reason } => "connection failed to "@ + host
            + ":"@ + decimal(port as nat) + ": "@ + reason,
        ErrorView::SendFailed(s) => "send failed: "@ + s,
        ErrorView::RecvFailed(s) => "receive failed: "@ + s,
        ErrorView::UnsupportedProtocol(s) => "unsupported protocol: "@ + s,
        ErrorView::EmptyKey => "empty key in operation"@,
        ErrorView::KeyNotFound(s) => "key not found: "@ + s,
        ErrorView::CasMismatch { expected, actual } => "compare-and-swap mismatch: expected '"@
            + expected + "', got '"@ + actual + "'"@,
        ErrorView::LeaseExpired { lease_ms } => "state change callback lease expired after "@
            + decimal(lease_ms as nat) + "ms"@,
        ErrorView::NoDestinationNode(s) => "no destination node for key: "@ + s,
        ErrorView::StorageError(s) => "storage error: "@ + s,
        ErrorView::PersistenceError { path, reason } => "failed to persist data to file: "@ + path
            + ": "@ + reason,
        ErrorView::ProtobufEncodeError(s) => "protobuf serialization failed: "@ + s,
        ErrorView::ProtobufDecodeError(s) => "protobuf deserialization failed: "@ + s,
        ErrorView::Timeout { timeout_ms } => "operation timed out after "@ + decimal(
            timeout_ms as nat,
        ) + "ms"@,
        ErrorView::UnrecognizedOpCode(s) => "unrecognized operation code: "@ + s,
        ErrorView::Internal(s) => s,
    }
}

impl ZhtError {
    /// The message of this error.
    pub fn to_string(&self) -> (r: String)
        ensures
            r@ == error_message(self@),
    {
        match self {
            ZhtError::ConfigNotFound { path } => join2("configuration file not found: ", path),
            ZhtError::ConfigParseError { path, reason } => join4(
                "failed to parse configuration file: ",
                path,
                ": ",
                reason,
            ),
            ZhtError::MissingConfigParam { param } => join2(
                "missing required configuration parameter: ",
                param,
            ),
            ZhtError::InvalidConfigValue { param, reason } => join4(
                "invalid configuration value for '",
                param,
                "': ",
                reason,
            ),
            ZhtError::ConnectionFailed { host, port, reason } => {
                let port = decimal_of(*port as u64);
                let mut r: String = join4("connection failed to ", host, ":", &port);
                r.push_str(": ");
                r.push_str(reason);
                r
            },
            ZhtError::SendFailed(s) => join2("send failed: ", s),
            ZhtError::RecvFailed(s) => join2("receive failed: ", s),
            ZhtError::UnsupportedProtocol(s) => join2("unsupported protocol: ", s),
            ZhtError::EmptyKey => "empty key in operation".to_owned(),
            ZhtError::KeyNotFound(s) => join2("key not found: ", s),
            ZhtError::CasMismatch { expected, actual } => {
                let mut r: String = join4(
                    "compare-and-swap mismatch: expected '",
                    expected,
                    "', got '",
                    actual,
                );
                r.push_str("'");
                r
            },
            ZhtError::LeaseExpired { lease_ms } => {
                let ms = decimal_of(*lease_ms);
                let mut r: String = join2("state change callback lease expired after ", &ms);
                r.push_str("ms");
                r
            },
            ZhtError::NoDestinationNode(s) => join2("no destination node for key: ", s),
            ZhtError::StorageError(s) => join2("storage error: ", s),
            ZhtError::PersistenceError { path, reason } => join4(
                "failed to persist data to file: ",
                path,
                ": ",
                reason,
            ),
            ZhtError::ProtobufEncodeError(s) => join2("protobuf serialization failed: ", s),
            ZhtError::ProtobufDecodeError(s) => join2("protobuf deserialization failed: ", s),
            ZhtError::Timeout { timeout_ms } => {
                let ms = decimal_of(*timeout_ms);
                let mut r: String = join2("operation timed out after ", &ms);
                r.push_str("ms");
                r
            },
            ZhtError::UnrecognizedOpCode(s) => join2("unrecognized operation code: ", s),
            ZhtError::Internal(s) => s.clone(),
        }
    }
}

/// The message of each error names what it is about: its words, and every part of
/// the error in full.
pub proof fn law_error_messages(a: Seq<char>, b: Seq<char>, port: u16, ms: u64)
    ensures
        error_message(ErrorView::ConfigNotFound { path: a }) == "configuration file not found: "@ + a,
        error_message(ErrorView::ConfigParseError { path: a, reason: b })
            == "failed to parse configuration file: "@ + a + ": "@ + b,
        error_message(ErrorView::MissingConfigParam { param: a })
            == "missing required configuration parameter: "@ + a,
        error_message(ErrorView::InvalidConfigValue { param: a, reason: b })
            == "invalid configuration value for '"@ + a + "': "@ + b,
        error_message(ErrorView::ConnectionFailed { host: a, port, reason: b })
            == "connection failed to "@ + a + ":"@ + decimal(port as nat) + ": "@ + b,
        error_message(ErrorView::SendFailed(a)) == "send failed: "@ + a,
        error_message(ErrorView::RecvFailed(a)) == "receive failed: "@ + a,
        error_message(ErrorView::UnsupportedProtocol(a)) == "unsupported protocol: "@ + a,
        error_message(ErrorView::EmptyKey) == "empty key in operation"@,
        error_message(ErrorView::KeyNotFound(a)) == "key not found: "@ + a,
        error_message(ErrorView::CasMismatch { expected: a, actual: b })
            == "compare-and-swap mismatch: expected '"@ + a + "', got '"@ + b + "'"@,
        error_message(ErrorView::LeaseExpired { lease_ms: ms })
            == "state change callback lease expired after "@ + decimal(ms as nat) + "ms"@,
        error_message(ErrorView::NoDestinationNode(a)) == "no destination node for key: "@ + a,
        error_message(ErrorView::StorageError(a)) == "storage error: "@ + a,
        error_message(ErrorView::PersistenceError { path: a, reason: b })
            == "failed to persist data to file: "@ + a + ": "@ + b,
        error_message(ErrorView::ProtobufEncodeError(a)) == "protobuf serialization failed: "@ + a,
        error_message(ErrorView::ProtobufDecodeError(a)) == "protobuf deserialization failed: "@ + a,
        error_message(ErrorView::Timeout { timeout_ms: ms }) == "operation timed out after "@ + decimal(
            ms as nat,
        ) + "ms"@,
        error_message(ErrorView::UnrecognizedOpCode(a)) == "unrecognized operation code: "@ + a,
        error_message(ErrorView::Internal(a)) == a,
{
}

} // verus!
