pub mod answer;
pub mod chat;
pub mod chunker;
pub mod codec;
pub mod config;
pub mod deploy;
pub mod embedding;
pub mod error;
pub mod ingest;
pub mod monitor;
pub mod ranking;
pub mod retrieval;
pub mod store;
pub mod text;
