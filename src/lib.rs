//! Job scheduling and polling engine for recurring watch jobs.
pub mod keyed;
pub mod types;
pub mod store;
pub mod scheduler;
pub mod render;
pub mod manager;
pub mod laws;
pub mod wasm;
pub mod cli;
