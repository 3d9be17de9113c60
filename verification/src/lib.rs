//! Keeps a local address table in step with a published address dataset.

pub mod addresses;
pub mod api;
pub mod archive;
pub mod datafile;
pub mod error;
pub mod import;
pub mod manifest;
pub mod models;
pub mod outside;
pub mod reconcile;
pub mod refresh;
pub mod rows;
pub mod state_refresher;
pub mod states;
pub mod text;
pub mod utils;
