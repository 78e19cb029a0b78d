pub mod api;
pub mod bus;
pub mod manifest;
pub mod state;
