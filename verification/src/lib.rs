//! Core logic of a QQ chat bot: command parsing, routing decisions,
//! access control, the in-memory message pool and report text building.
pub mod text;
pub mod strmap;
pub mod parser;
pub mod intmap;
pub mod permission;
pub mod order;
pub mod command;
pub mod registry;
pub mod message;
pub mod pool;
pub mod time;
pub mod api;
pub mod dispatch;
pub mod smy;
pub mod report_text;
pub mod report;
pub mod config;
pub mod webhook;
pub mod services;
pub mod bench;
