pub mod progress;
pub mod commands;
