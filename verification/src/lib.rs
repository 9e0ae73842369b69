//! A topic/channel message broker core: wire formats, the queue and delivery
//! engine of the broker, and the registration database of the discovery
//! service, with machine-checked contracts.

pub mod admin;
pub mod channel;
pub mod client;
pub mod clock;
pub mod codec;
pub mod command;
pub mod config;
pub mod compression;
pub mod disk_queue;
pub mod errors;
pub mod frame;
pub mod http;
pub mod message;
pub mod meta;
pub mod message_queue;
pub mod protocol;
pub mod registry;
pub mod seqs;
pub mod server;
pub mod stats;
pub mod text;
pub mod topic;
pub mod validation;
pub mod wire;
