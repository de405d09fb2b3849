//! A small static-file HTTP server's logic: the request-line grammar, routing
//! to static pages and response assembly, validation of the listening address,
//! and the scheduling ledger of the worker pool that answers connections.
pub mod address;
pub mod dispatch;
pub mod pool;
pub mod requests;
pub mod response;
