//! Infrastructure for chats with an agent.
//!
//! A session is persisted with its messages and moves through the states of a
//! domain. A run of its agent races the signals that stop it, tool calls may
//! wait for a human, and whatever happens is announced to the clients.
//!
//! The library decides; channels, tasks, files, tables and clocks belong to
//! its host. What a call announces is handed back as events, and the current
//! time and new identifiers are handed in.
//!
//! - [`session_loop`], [`manager`], [`service`]: runs of agents, the sessions
//!   that run, and the chat service over them.
//! - [`state`], [`model`], [`store`]: states, sessions, messages and events,
//!   and the file that a session is stored in.
//! - [`tools`], [`bridge`], [`validation`]: what an agent can call, and the
//!   approval of calls.
//! - [`convert`], [`wire`]: what is streamed to clients.
//! - [`framing`]: frames on the wire between hosts.
//! - [`models`], [`spend`], [`types`]: configured models, prices and users.
//! - [`metrics`], [`otel`]: names and settings of telemetry.
//! - [`ids`], [`json`], [`text`], [`time`]: the values all of these share.

pub mod bridge;
pub mod convert;
pub mod framing;
pub mod ids;
pub mod json;
pub mod manager;
pub mod metrics;
pub mod model;
pub mod models;
pub mod otel;
pub mod service;
pub mod session_loop;
pub mod spend;
pub mod state;
pub mod store;
pub mod text;
pub mod time;
pub mod tools;
pub mod types;
pub mod validation;
pub mod wire;
