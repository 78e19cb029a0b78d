pub mod dlq;
pub mod engine;
pub mod errors;
pub mod event;
pub mod event_engine;
pub mod hotswap;
pub mod manifest;
pub mod models;
pub mod network;
pub mod worker;
pub mod signing;
pub mod supervisor;
pub mod router;
pub mod send_log;
pub mod call_log;
pub mod runtime;
pub mod plugin_manager;
pub mod registry;
pub mod instance_link;
