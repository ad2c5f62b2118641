pub mod components;
pub mod config;
