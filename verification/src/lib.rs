//! The Agent Communication Hub: a small message hub that routes envelopes between
//! agents.
//!
//! One process holds a queue per agent name, verifies who is speaking, and hands
//! envelopes to consumers that wait for them. It never looks into a message body,
//! never originates an envelope, and changes nothing of one but its sender, which
//! it stamps with the authenticated name.
//!
//! - [`envelope`], [`wire`], [`line`]: the message unit, the protocol's lines, and
//!   their framing.
//! - [`hub`], [`history`]: queues, waiting consumers and routing, and what holds of
//!   every sequence of routing steps.
//! - [`session`]: one connection from the hub's side.
//! - [`client`], [`run`]: what the client decides, and one run of it.
//! - [`config`], [`roster`], [`service_log`], [`audit`]: what the hub starts from,
//!   and what it records.
//! - [`table`], [`text`], [`timestamp`]: what the others share.

pub mod audit;
pub mod client;
pub mod config;
pub mod envelope;
pub mod history;
pub mod hub;
pub mod line;
pub mod roster;
pub mod run;
pub mod service_log;
pub mod session;
pub mod table;
pub mod text;
pub mod timestamp;
pub mod wire;
