//! Verified core of a push-to-talk dictation tool: the dotool command
//! protocol, the Doubao streaming speech-recognition wire format and
//! session logic, configuration validation and local usage bookkeeping.
pub mod config;
pub mod dotool;
pub mod error;
pub mod protocol;
pub mod request;
pub mod resample;
pub mod session;
pub mod text;
pub mod transcriber;
pub mod usage;
