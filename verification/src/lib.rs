pub mod text;
pub mod lines;
pub mod num;
pub mod config;
pub mod hex;
pub mod indent;
pub mod diff;
pub mod context;
pub mod security;
pub mod splice;
pub mod manifest;
pub mod errors;
pub mod backup;
pub mod guard;
pub mod lock;
pub mod cli;
pub mod binding;
