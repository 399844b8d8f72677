//! Configuration, caching and response logic of a reverse proxy.

pub mod clock;
pub mod config;
pub mod laws;
pub mod logging;
pub mod number;
pub mod path;
pub mod proxy;
pub mod text;
pub mod text_map;
pub mod views;
