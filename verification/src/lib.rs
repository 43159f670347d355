//! Results capture for tournament match-report messages: configuration
//! validation, message parsing, tournament routing, sheet rows and the
//! admin-notification body, each with a verified contract.

pub mod text;

pub mod pattern;
pub mod config;
pub mod entry;
pub mod parse;
pub mod tournament;
pub mod notify;
pub mod retry;
pub mod sheets;
pub mod worker;
pub mod diag;
pub mod handler;
