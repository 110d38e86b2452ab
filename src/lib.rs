//! Real-time connection gateway of a chat backend: encrypted text fields,
//! the registry of live peers, the connection counter and the per-connection
//! lifecycle, together with the plain records that the data layer exchanges.

pub mod hex_text;
mod random;
pub mod encryption;
pub mod counter;
pub mod registry;
pub mod gateway;
pub mod models;
