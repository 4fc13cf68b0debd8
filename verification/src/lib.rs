//! The logic of a broker between chat platforms and coding agents: prompts over
//! HTTP, status reactions on chat messages, and the adapter that turns an
//! agent's command line into a protocol.

pub mod adapter;
pub mod agy_log;
pub mod answer_laws;
pub mod http;
pub mod http_laws;
pub mod log_laws;
pub mod log_scan;
pub mod narration;
pub mod protobuf;
pub mod reaction_laws;
pub mod reactions;
pub mod rpc;
pub mod stage_laws;
pub mod startup;
pub mod streaming;
pub mod text;
pub mod text_laws;
pub mod turn_laws;
