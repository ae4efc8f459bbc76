//! Achievement state synchronisation: parsers for the achievement files that
//! game loaders write, a bounded metadata cache, and the debounced directory
//! monitor that ties them together.

pub mod api;
pub mod backup;
pub mod cache;
pub mod directories;
pub mod exporter;
pub mod json;
pub mod lookup;
pub mod models;
pub mod monitor;
pub mod parser;
pub mod paths;
pub mod settings;
pub mod startup;
pub mod steam_integration;
pub mod text;
pub mod unlocker;
