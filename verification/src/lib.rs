//! The logic of a Miracast / Wi-Fi Display source.
//!
//! The source scans for sinks and links to them with the help of `wpa_cli`
//! ([`scan`], [`connect`]), waits for one of them to connect ([`serve`]) and
//! runs the RTSP session that negotiates the stream ([`reader`], [`session`]).
pub mod cli;
pub mod config;
pub mod connect;
pub mod device;
pub mod dialogue;
pub mod encoding;
pub mod error;
pub mod exchange;
pub mod fields;
pub mod handshake;
pub mod number;
pub mod order;
pub mod params;
pub mod peer;
pub mod process;
mod random;
pub mod reader;
pub mod report;
pub mod rtsp;
pub mod scan;
pub mod serve;
pub mod session;
pub mod text;
pub mod wpa;
