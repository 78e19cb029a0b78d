pub mod crypto;
pub mod engine;
pub mod storage;
pub mod transport;
pub mod types;
pub mod transport_log;
