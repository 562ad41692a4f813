//! Control-plane logic of the BalanSir daemon.
pub mod amneziawg;
pub mod b4;
pub mod b4_discovery;
pub mod b4_dpi;
pub mod b4_engine;
pub mod b4_manager;
pub mod capability;
pub mod cli;
pub mod control;
pub mod dns;
pub mod dns_filter;
pub mod dns_plane;
pub mod driver;
pub mod events;
pub mod gateway;
pub mod health;
pub mod hysteria;
pub mod interface;
pub mod interface_probe;
pub mod json;
pub mod l2_probe;
pub mod model;
pub mod mptcp_manager;
pub mod net;
pub mod network_config;
pub mod order;
pub mod path_decision;
pub mod policy;
pub mod qos;
pub mod reconciliation;
pub mod secrets;
pub mod seqs;
pub mod server;
pub mod snapshot;
pub mod startup;
pub mod subsystems;
pub mod text;
pub mod text_map;
