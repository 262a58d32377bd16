//! The rules of the `inkentry` command line: what each command decides, what it
//! sends, and what it says. Reading and writing live outside this library; the
//! functions here take and return plain values.

pub mod args;
pub mod config;
pub mod memory;
pub mod metrics;
pub mod misc;
pub mod notice;
pub mod order;
pub mod org;
pub mod plumbing;
pub mod removed;
pub mod search;
pub mod server;
pub mod status;
pub mod text;
pub mod textmap;
pub mod time;
pub mod ui;
