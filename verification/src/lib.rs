pub mod capture;
pub mod cli;
pub mod client_metadata;
pub mod command;
pub mod config;
pub mod digest;
pub mod frame;
pub mod health;
pub mod indicator;
pub mod journal;
pub mod journal_version;
pub mod json;
pub mod migration;
pub mod model;
pub mod name;
pub mod observer;
pub mod order;
pub mod paths;
pub mod post_connect;
pub mod private_link;
pub mod relay_access;
pub mod service;
pub mod storage;
pub mod sync;
pub mod text;
pub mod tmux;
