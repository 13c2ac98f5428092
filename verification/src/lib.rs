pub mod codec;
pub mod config;
pub mod deploy;
pub mod error;
pub mod license;
pub mod outside;
pub mod progress;
pub mod text;
