//! Verified core of a multiplexer for Cosmos blockchain events.

pub mod data;
pub mod error;
pub mod json;
pub mod listener;
pub mod msg;
pub mod publisher;
pub mod render;
pub mod repeater;
pub mod text;
