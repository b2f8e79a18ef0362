//! Host resolution, argument classification, picker state and connection
//! supervision for an `ssh` front-end, with every rule stated as a contract.

pub mod audit;
pub mod case;
pub mod cli;
pub mod completions;
pub mod config_scan;
pub mod connect;
pub mod history;
pub mod hosts;
pub mod hosts_toml;
pub mod layout;
pub mod locate;
pub mod manage;
pub mod numbers;
pub mod oken_config;
pub mod order;
pub mod picker;
pub mod picker_filter;
pub mod picker_order;
pub mod picker_view;
pub mod reconnect;
pub mod relative_time;
pub mod route;
pub mod search;
pub mod split;
pub mod ssh;
pub mod store;
pub mod ssh_config;
pub mod text;
pub mod time_utils;
pub mod tunnels;
pub mod update_check;
