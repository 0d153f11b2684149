//! Verified core of the fact-checking bridge: the lightweight meaning
//! database and its tag verifier, the text formats that the bridge reads
//! and writes, and the decisions that the bridge takes on each message.

pub mod text;
pub mod lightweight;
pub mod formats;
pub mod message;
pub mod models;
pub mod bridge;
pub mod history;
pub mod pending;
pub mod pipeline;
