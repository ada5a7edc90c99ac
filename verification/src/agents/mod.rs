//! Agents that talk to each other: messages, routing, status and where a child works.

pub mod message;
pub mod notice;
pub mod status;
pub mod transition;
pub mod workspace;
