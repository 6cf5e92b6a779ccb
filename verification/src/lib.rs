//! babylon: a coordination hub for AI coding agents.
//!
//! Agents exchange typed, summary-first messages in channels and read only
//! what is new for them.  This crate holds the hub's engine: the tables it
//! keeps (agents, channels, subscriptions, messages, issues), every operation
//! on them, and the small text rules (handles, message kinds, issue refs,
//! host checks) the service is built from.

mod text;
mod order;

pub mod error;
pub mod types;
pub mod store;
pub mod dto;
pub mod hub;
pub mod token;
pub mod presence;
mod channels;
mod messages;
mod reads;
pub mod lifecycle;
mod agents;
mod history;
mod issues;
pub mod web;
pub mod config;
pub mod laws;
pub mod tools;
pub mod dashboard;
mod integrity;
