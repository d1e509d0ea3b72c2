//! Verified core of the BetCode daemon: step scheduling for orchestrations,
//! completion indexes, plugin health, session multiplexing, pending
//! permission tracking and GitLab value conversions.
pub mod errors;
pub mod rpc;
pub mod repos;
pub mod relay;
pub mod health;
pub mod agent_service;
pub mod server_config;
pub mod names;
pub mod scheduler;
pub mod orchestration;
pub mod subagent;
pub mod subagent_service;
pub mod json;
pub mod keyed;
pub mod stdout_events;
pub mod ndjson;
pub mod bridge;
pub mod models;
pub mod service;
pub mod commands;
pub mod subprocess;
pub mod processes;
pub mod version;
pub mod text;
pub mod completion;
pub mod git_listing;
pub mod plugin;
pub mod permission;
pub mod session;
pub mod timestamp;
pub mod gitlab;
pub mod gitlab_convert;
