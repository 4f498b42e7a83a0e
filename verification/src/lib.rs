//! Load generation and measurement logic for cache servers.

pub mod admin;
pub mod buffer;
pub mod client;
pub mod cluster;
pub mod config;
pub mod double;
pub mod keydist;
pub mod metrics;
pub mod output;
pub mod ratelimit;
pub mod rounding;
pub mod runner;
pub mod saturation;
pub mod search;
pub mod text;
pub mod time;
pub mod viewer;
pub mod worker;
