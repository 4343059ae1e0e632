//! Session bookkeeping, container planning and request routing for a
//! multi-tenant wallet-headless orchestrator.
pub mod docker;
pub mod laws;
pub mod proxy;
pub mod routes;
pub mod state;
pub mod text;
pub mod token;
