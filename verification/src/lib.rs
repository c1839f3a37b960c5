pub mod action;
pub mod codec;
pub mod constants;
pub mod player;
pub mod registry;
pub mod room;
pub mod server;
