//! Detection of subscribed Solana transactions in a shred stream.
pub mod clock;
pub mod config;
pub mod deshred;
pub mod followup;
pub mod json;
pub mod jsonrpc;
pub mod latency;
pub mod reconstruction;
pub mod reconstruction_laws;
pub mod replay_laws;
pub mod rpc;
pub mod scan;
pub mod shred;
pub mod signature;
pub mod subscriptions;
pub mod text;
pub mod tracker;
pub mod websocket;
pub mod websocket_laws;
pub mod ws_task;
