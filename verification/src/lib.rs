//! A bridge between a smart-lighting control API and devices that are driven
//! through a home-automation message broker.
//!
//! The crate holds the resource store and its persisted form, the
//! translation between the two vocabularies, the reconciliation of broker
//! messages with the store, the routing of commands to broker clients, and
//! the state machine that supervises the long-running tasks. Its functions
//! are verified against their contracts. Three of them call outside code,
//! to draw and to derive ids and to decode UTF-8: their contracts are stated
//! and believed. Sockets, files and the runtime live outside the crate.
pub mod api;
pub mod broker;
pub mod codec;
pub mod dispatch;
pub mod error;
pub mod format;
pub mod ident;
pub mod logging;
pub mod persist;
pub mod protocol;
pub mod reply;
pub mod resource;
pub mod store;
pub mod supervisor;
pub mod text;
pub mod update;
