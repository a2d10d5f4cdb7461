//! Core logic of a self-hosted media server: an on-demand HLS transcode
//! session manager, a playlist synthesizer, a filesystem scanner, and a
//! matcher that resolves discovered files against an external catalog.
//!
//! Everything here is verified. Process control, networking and the
//! database live outside this crate; they hand plain values in and take
//! plain values back.

pub mod auth;
pub mod config;
pub mod dates;
pub mod matcher;
pub mod media;
pub mod parser;
pub mod playlist;
pub mod profiles;
pub mod proxy;
pub mod query;
pub mod scanner;
pub mod session;
pub mod text;
pub mod tmdb;
