//! Real-time room/message synchronization engine for a browser chat client.
//!
//! The engine owns the state behind a single long-lived text-stream
//! connection: it decodes a line-oriented tagged wire protocol into typed
//! events, keeps a registry of rooms and their members, keeps per-room
//! message history, and decides for each inbound event whether to raise a
//! transient toast or silently ask the open conversation view to redraw.

pub mod codec;
pub mod common;
pub mod notify;
pub mod registry;
pub mod session;
pub mod store;
pub mod text;
