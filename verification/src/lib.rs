pub mod config;
pub mod health;
pub mod keystore;
pub mod pipeline;
pub mod rpc;
pub mod state;
