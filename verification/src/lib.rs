//! Verified core of a plugin-driven health-check service: the ordered
//! registry of plugins and their checks, the interpretation of the plugin
//! protocol's status codes, the aggregation of check results into a health
//! report and its JSON rendering, and the HTTP routing of the health endpoint.

pub mod names;
pub mod registry;
pub mod json;
pub mod report;
pub mod protocol;
pub mod plugins;
pub mod server;
pub mod config;
pub mod sample_plugin;
