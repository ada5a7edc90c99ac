//! Verified logic of a work ledger and of the sessions around it.

pub mod agents;
pub mod atomic;
pub mod auth;
pub mod codec;
pub mod commands;
pub mod completion;
pub mod control;
pub mod cur;
pub mod details;
pub mod directory;
pub mod extension;
pub mod history;
pub mod history_notes;
pub mod json;
pub mod ledger;
pub mod presentation;
pub mod sealing;
pub mod secrets;
pub mod secrets_document;
pub mod storage;
pub mod table;
pub mod text;
pub mod text_laws;
pub mod time;
pub mod tool;
pub mod transcripts;
pub mod vault;
pub mod world_state;
