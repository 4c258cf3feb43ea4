//! Where the tracker keeps things on disk: the settings file, the shared
//! task files and the rows of the task table.
pub mod config;
pub mod json;
pub mod sqlite;
