//! Library of a desktop launcher for a personal console ROM collection.
pub mod text;
pub mod registry;
pub mod paths;
pub mod scan;
pub mod install;
pub mod detect;
pub mod config;
pub mod launch;
pub mod metadata;
pub mod script;
pub mod syscmd;
