//! Bit: the rules of a voice-driven desktop companion, verified.

pub mod agent;
pub mod audio;
pub mod config;
pub mod json;
pub mod mcp;
pub mod motion;
pub mod output;
pub mod paths;
pub mod roster;
pub mod script;
pub mod session;
pub mod stt;
pub mod text;
pub mod tools;
pub mod workflows;
