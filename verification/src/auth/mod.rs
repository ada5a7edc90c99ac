//! Credentials: what is stored of an account, the bank that holds several of them, and how they are
//! named, selected and changed.

pub mod accounts;
pub mod backend;
pub mod bank;
pub mod change;
pub mod conduct;
pub mod credentials;
pub mod laws;
pub mod update;
