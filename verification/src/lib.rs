//! Decision core of a local-first recorder and transcriber.
//!
//! The crate holds what the desktop application decides: when speech becomes a
//! chunk, which job the engine runs next, what a stop still has to flush, how a
//! request for audio bytes is answered, which rows a start-up sweep closes. Every
//! item is stated in contracts and proved. Devices, files, sockets, clocks and the
//! database are driven from outside and hand plain values in.

pub mod backfill;
pub mod capture;
pub mod chunk;
pub mod db_service;
pub mod device_broker;
pub mod dispatch;
pub mod embedding;
pub mod engine;
pub mod error;
pub mod files;
pub mod health;
pub mod host;
pub mod labels;
pub mod live_loop;
pub mod mic;
pub mod migrations;
pub mod model;
pub mod parts;
pub mod platform;
pub mod prompt;
pub mod recording;
pub mod scheduler;
pub mod single;
pub mod slots;
pub mod start;
pub mod stream;
pub mod sweep;
pub mod text;
pub mod tray;
pub mod vad;
