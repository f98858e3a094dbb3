pub mod cli;
pub mod compose;
pub mod config;
pub mod env_map;
pub mod error;
pub mod hooks;
pub mod installed;
pub mod laws;
pub mod localconfig;
pub mod locator;
pub mod runner;
pub mod search;
pub mod shell;
pub mod shim;
pub mod text;
pub mod userdata;
pub mod vdf_gen;
pub mod verbs;
