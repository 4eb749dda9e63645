//! System-wide constants: operation codes, return codes, configuration names
//! and defaults.

use vstd::prelude::*;

verus! {

// ── Operation Codes (ZSC_OPC_*) ──────────────────────────────────────

/// Lookup operation code: `"001"`
pub const OPC_LOOKUP: &'static str = "001";

/// Remove operation code: `"002"`
pub const OPC_REMOVE: &'static str = "002";

/// Insert operation code: `"003"`
pub const OPC_INSERT: &'static str = "003";

/// Append operation code: `"004"`
pub const OPC_APPEND: &'static str = "004";

/// Compare-and-swap operation code: `"005"`
pub const OPC_CMPSWP: &'static str = "005";

/// State change callback operation code: `"006"`
pub const OPC_STCHGCB: &'static str = "006";

/// Broadcast global membership done
pub const OPC_BRDDN_GMEM: &'static str = "007";

/// Cancel an operation
pub const OPC_OPR_CANCEL: &'static str = "008";

/// Get assigned neighbor info
pub const OPC_GET_ASNGHB: &'static str = "009";

/// Broadcast global membership
pub const OPC_BRD_GMEM: &'static str = "010";

/// Get global membership
pub const OPC_GET_GMEM: &'static str = "011";

/// Get destination ZHT for client request
pub const OPC_GET_DESTZHT: &'static str = "012";

/// Pull file from source
pub const OPC_PULLFILE: &'static str = "013";

/// Migrate done (target notification)
pub const OPC_MIGDONETGT: &'static str = "014";

/// Migrate done (source notification)
pub const OPC_MIGDONESRC: &'static str = "015";

/// Migrate target
pub const OPC_MIGTARGET: &'static str = "016";

/// Migrate source
pub const OPC_MIGSOURCE: &'static str = "017";

// ── Return Codes (ZSC_REC_*) ─────────────────────────────────────────

/// Success return code: `"000"`
pub const REC_SUCC: &'static str = "000";

/// Empty key error: `"-01"`
pub const REC_EMPTYKEY: &'static str = "-01";

/// Client-side failure: `"-02"`
pub const REC_CLTFAIL: &'static str = "-02";

/// Server-side failure: `"-03"`
pub const REC_SRVFAIL: &'static str = "-03";

/// State change callback poll retry: `"-04"`
pub const REC_SCCBPOLLTRY: &'static str = "-04";

/// Server exception: `"-05"`
pub const REC_SRVEXP: &'static str = "-05";

/// Non-existent key: `"-92"`
pub const REC_NONEXISTKEY: &'static str = "-92";

/// No destination ZHT for key: `"-93"`
pub const REC_NODESTZHT: &'static str = "-93";

/// No need to migrate: `"-94"`
pub const REC_NONEEDMIG: &'static str = "-94";

/// File push failed: `"-95"`
pub const REC_FLPUSHFAIL: &'static str = "-95";

/// File pull failed: `"-96"`
pub const REC_FLPULLFAIL: &'static str = "-96";

/// Second try: `"-97"`
pub const REC_SECDTRY: &'static str = "-97";

/// Unrecognized operation code: `"-98"`
pub const REC_UOPC: &'static str = "-98";

/// Unprocessed: `"-99"`
pub const REC_UNPR: &'static str = "-99";

// ── Protocol Values ──────────────────────────────────────────────────

/// TCP protocol identifier
pub const PROTO_VAL_TCP: &'static str = "TCP";

/// UDP protocol identifier
pub const PROTO_VAL_UDP: &'static str = "UDP";

/// MPI protocol identifier
pub const PROTO_VAL_MPI: &'static str = "MPI";

// ── Environment Defaults ─────────────────────────────────────────────

/// Size of blob transferred from client to server each time (bytes).
pub const BUF_SIZE: usize = 550;

/// Default maximum message size per transfer (bytes).
pub const MSG_DEFAULT_SIZE: usize = 1024;

/// Default polling interval for state_change_callback (milliseconds).
pub const SCCB_POLL_DEFAULT_INTERVAL: u64 = 100;

// ── Configuration Parameter Names ─────────────────────────────────────

/// Name of the parameter `PROTOCOL`.
pub const CONF_PROTOCOL: &'static str = "PROTOCOL";

/// Name of the parameter `PORT`.
pub const CONF_PORT: &'static str = "PORT";

/// Name of the parameter `MSG_MAXSIZE`.
pub const CONF_MSG_MAXSIZE: &'static str = "MSG_MAXSIZE";

/// Name of the parameter `SCCB_POLL_INTERVAL`.
pub const CONF_SCCB_POLL_INTERVAL: &'static str = "SCCB_POLL_INTERVAL";

/// Name of the parameter `INSTANT_SWAP`.
pub const CONF_INSTANT_SWAP: &'static str = "INSTANT_SWAP";

/// Name of the parameter `MAX_ZHT`.
pub const CONF_MAX_ZHT: &'static str = "MAX_ZHT";

/// Name of the parameter `NUM_REPLICAS`.
pub const CONF_NUM_REPLICAS: &'static str = "NUM_REPLICAS";

/// Name of the parameter `REPLICATION_TYPE`.
pub const CONF_REPLICATION_TYPE: &'static str = "REPLICATION_TYPE";

/// Name of the parameter `ZHT_CAPACITY`.
pub const CONF_ZHT_CAPACITY: &'static str = "ZHT_CAPACITY";

/// Name of the parameter `FILECLIENT_PATH`.
pub const CONF_FILECLIENT_PATH: &'static str = "FILECLIENT_PATH";

/// Name of the parameter `FILESERVER_PATH`.
pub const CONF_FILESERVER_PATH: &'static str = "FILESERVER_PATH";

/// Name of the parameter `FILESERVER_PORT`.
pub const CONF_FILESERVER_PORT: &'static str = "FILESERVER_PORT";

/// Name of the parameter `HTDATA_PATH`.
pub const CONF_HTDATA_PATH: &'static str = "HTDATA_PATH";

/// Name of the parameter `MIGSLP_TIME`.
pub const CONF_MIGSLP_TIME: &'static str = "MIGSLP_TIME";

// ── Misc ─────────────────────────────────────────────────────────────

/// Default hash function base length.
pub const LEN_BASE: usize = 15;

/// Delimiters used in configuration files (space, tab).
pub const CONF_DELIMITERS: &'static str = " \t";

/// Maximum number of events in the epoll set.
pub const MAX_EVENTS: usize = 4096;

} // verus!
