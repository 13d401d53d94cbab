//! Client core for an append-only, segmented stream store.
//!
//! The library holds the verified logic of the client: the length-prefixed
//! wire codec and its framing guarantees, the hello-handshake version check,
//! the endpoint-keyed connection pool accounting, the per-stream writer
//! reactor that routes, tracks and acknowledges appends, the reader-group
//! coordinator over a conditional-update table map, and the slicing of
//! segment reads into event boundaries. All I/O (TCP, channels, timers)
//! stays outside; the functions here are pure state transitions and codecs
//! with contracts that pin their results down.

pub mod be_bytes;
pub mod commands;
pub mod config;
pub mod decode;
pub mod hello;
pub mod pool;
pub mod raw_client;
pub mod selector;
pub mod reader_group;
pub mod slice;
pub mod tablemap;
pub mod writer;
pub mod retry;
pub mod roundtrip;
