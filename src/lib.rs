//! Core of a real-time chat relay: the hub state machine that owns the live
//! connections and authenticated users, the per-user rate limiter, the
//! message validator, moderation sets and the helpers around them.

pub mod auth;
pub mod chat;
pub mod config;
pub mod error;
pub mod ids;
pub mod message;
pub mod moderation;
pub mod packets;
pub mod session;
pub mod text;
