pub mod text;
pub mod env_map;
pub mod env_capture;
pub mod render;
pub mod wrapper;
pub mod config;
pub mod workflow;
pub mod utf16;
