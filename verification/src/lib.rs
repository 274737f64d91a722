//! Tycho: scheduled, verified backups of watched trees into bare git stores.

pub mod bootstrap;
pub mod capture;
pub mod cli;
pub mod config;
pub mod config_edit;
pub mod doctor;
pub mod git;
pub mod lines;
pub mod metadata;
pub mod octets;
pub mod plan;
pub mod platform;
pub mod primitives;
pub mod process;
pub mod remote;
pub mod restore;
pub mod store;
pub mod text;
pub mod textmap;
