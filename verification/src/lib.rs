//! Verified core of the Antigravity agent SDK: the startup handshake codec,
//! tool-call policies, conversation bookkeeping and the event mapping that
//! sits between the SDK and the `localharness` runtime.

pub mod text;
pub mod proto;
pub mod json;
pub mod types;
pub mod conversation;
pub mod path;
pub mod policy;
pub mod keyed;
pub mod hooks;
pub mod connection;
