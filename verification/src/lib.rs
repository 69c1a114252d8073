//! App automation over the GUI automation bus: invoke a running app's verbs, read its state, and
//! collect its events, and bind calls to several apps into one transaction that unwinds in
//! reverse.
//!
//! Nothing here does input or output. An [`exchange::Exchange`] names the next action on the
//! transport and takes in what came of it; a [`saga::Saga`] names the next operation and takes in
//! what the app answered. Whoever owns the sockets performs both.
//!
//! - [`json`], [`text`], [`frame`]: documents, and the lines that carry them
//! - [`conn`], [`exchange`], [`client`]: connections, one exchange on a connection, and the
//!   operations that start one
//! - [`saga`], [`report`], [`registry`]: transactions over several apps
//! - [`exports`]: the surface in terms of JSON text
//! - [`laws`], [`document_laws`], [`exchange_laws`], [`saga_laws`], [`report_laws`],
//!   [`export_laws`], [`view_laws`]: what holds of all of it

pub mod client;
pub mod conn;
pub mod document_laws;
pub mod exchange;
pub mod exchange_laws;
pub mod export_laws;
pub mod exports;
pub mod frame;
pub mod json;
pub mod laws;
pub mod registry;
pub mod report;
pub mod report_laws;
pub mod saga;
pub mod saga_laws;
pub mod text;
pub mod view_laws;
