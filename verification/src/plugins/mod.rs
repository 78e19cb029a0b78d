pub mod aes_plugin;
pub mod cli_crypto;
pub mod cli_ntfy;
pub mod console_plugins;
pub mod dweet;
pub mod fs_transport;
pub mod guest;
pub mod history_store;
pub mod memory_store;
pub mod ntfy_transport;
pub mod raw_ntfy;
pub mod host_link;
