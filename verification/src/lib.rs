//! Verified core of a tool that records the request and response bodies that a
//! llama-swap proxy keeps in memory.

pub mod capture;
pub mod capture_laws;
pub mod config;
pub mod config_laws;
pub mod connection;
pub mod connection_laws;
pub mod decoding_laws;
pub mod entry_laws;
pub mod json;
pub mod metrics;
pub mod metrics_laws;
pub mod models;
pub mod name_laws;
pub mod reading_laws;
pub mod report_laws;
pub mod request_laws;
pub mod sse;
pub mod stream_laws;
pub mod text;
pub mod text_laws;
