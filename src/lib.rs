//! Classification of a command line's tokens into an executable, commands,
//! flags and paths.
pub mod config;
pub mod laws;
pub mod tokens;

pub use config::{ArgumentConfig, ConfigModel};
