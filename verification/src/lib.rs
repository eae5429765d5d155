//! Verified core of the intercom synchronisation agent: MAC address
//! normalisation, the generated PJSIP configuration, backup retention,
//! event filtering and the decision logic of the sync and debounce loops.

pub mod text;
pub mod mac;
pub mod order;
pub mod intercom;
pub mod render;
pub mod backup;
pub mod event;
pub mod config;
pub mod sync;
pub mod agent;
