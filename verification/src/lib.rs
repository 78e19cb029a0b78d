//! Verified core of a plugin-hosting messenger: event routing, plugin
//! supervision, message stores, wire framing and the plugins' own rules.

pub mod aead;
pub mod chat_log;
pub mod clock;
pub mod codec;
pub mod framing;
pub mod host;
pub mod json;
pub mod messenger;
pub mod plugins;
pub mod str_map;
pub mod text;
pub mod void;
