//! Verified core of an average-speed enforcement service and of two small
//! companion services (a line-based chat room and a key-value store).
//!
//! Every module is pure logic over plain values.  Sockets, timers and task
//! plumbing live with the caller, which feeds bytes and events in and carries
//! the returned instructions out.
//!
//! The speed service: `wire` and `codec` frame the protocol, `reader` turns
//! the bytes of a connection into events, `dispatch` is the core that owns
//! all shared state, with `connection`, `registry`, `ledger` and `speed`
//! beneath it, and `heartbeat` is the schedule of one connection's
//! keep-alive frames.  `model` states the core as a state machine over
//! mathematical values; `codec_laws`, `model_laws` and `delivery_laws` hold
//! what is proved of the format and of the core.  `layout` describes frames
//! by the layout of their fields.
//!
//! The companions: `chat` is the room, `kv` the store, `text` what both need
//! of text.

pub mod text;
pub mod layout;
pub mod wire;
pub mod codec;
pub mod codec_laws;
pub mod speed;
pub mod connection;
pub mod ledger;
pub mod registry;
pub mod model;
pub mod model_laws;
pub mod delivery_laws;
pub mod dispatch;
pub mod heartbeat;
pub mod reader;
pub mod chat;
pub mod kv;
