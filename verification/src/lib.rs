//! The Mule runs end-to-end tests of peer-to-peer programs: this is what it decides, and how.
pub mod assignment;
pub mod client;
pub mod config;
pub mod console;
pub mod containers;
pub mod distribution;
pub mod docker_mgr;
pub mod orchestrator;
pub mod order;
pub mod outside;
pub mod peer_monitor;
pub mod redis_mgr;
pub mod reference_peer;
pub mod run;
pub mod show;
pub mod ssh_mgr;
pub mod text;
pub mod text_map;
pub mod ui;
