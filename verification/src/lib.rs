//! ZHT, a zero-hop distributed hash table.
//!
//! Every client knows every node and sends a request straight to the node that
//! its key belongs to. This crate holds the rules of that: what is stored, sent
//! and counted, and what happens on each event. It does no input or output of
//! its own; whoever drives it reads files, clocks and sockets and hands in what
//! they gave.
//!
//! - Storage: [`novoht`], [`table`], [`cache`].
//! - Messages: [`zpack`], [`wire`], [`framing`], [`chunking`].
//! - Servers: [`worker`], [`server`], [`membership`], [`replication`],
//!   [`migration`], [`startup`].
//! - Clients: [`client`], [`connection`].
//! - Transports: [`transport`], [`tcp`], [`udp`], [`metrics`].
//! - Configuration: [`config`], [`conf_entry`], [`host_entity`], [`constants`].
//! - Foundations: [`text`], [`number`], [`hash_util`], [`id_helper`], [`error`].

pub mod cache;
pub mod chunking;
pub mod client;
pub mod conf_entry;
pub mod config;
pub mod connection;
pub mod constants;
pub mod error;
pub mod framing;
pub mod hash_util;
pub mod host_entity;
pub mod id_helper;
pub mod membership;
pub mod metrics;
pub mod migration;
pub mod novoht;
pub mod number;
pub mod replication;
pub mod server;
pub mod startup;
pub mod table;
pub mod tcp;
pub mod text;
pub mod transport;
pub mod udp;
pub mod wire;
pub mod worker;
pub mod zpack;
