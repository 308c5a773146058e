//! Core of a multi-agent communication system.
//!
//! Two tightly coupled pieces:
//!
//! * the agent communication graph ([`links`], [`topology`]): typed, directed
//!   edges that decide who may message whom, what social framing a message
//!   carries, and the durable channel identity shared by both endpoints;
//! * the conversation persistence and compaction layer ([`history`]): an
//!   append-only log of messages, rollup summaries and transcript archives,
//!   with fire-and-forget writes and order-preserving reads.
//!
//! Transport, HTTP framing and the durable store itself are adapters around
//! this core and live outside it.

pub mod history;
pub mod links;
pub mod text;
pub mod topology;
