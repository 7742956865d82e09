//! Broker for OAuth2 credentials between a first-party identity provider and a
//! partner accounting API: a token store, an authorization flow, a token
//! exchange client, and a refresh scheduler.

pub mod store;
mod clock;
pub mod exchange;
pub mod scheduler;
pub mod urlenc;
pub mod api;
pub mod error;
pub mod client;
pub mod routes;
pub mod config;
pub mod flow;
