pub mod event;
pub mod flags;
pub mod frame_handler;
pub mod keepalive;
