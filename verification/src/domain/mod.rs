//! The entities of the tracker: tasks, their settings, and the table that
//! keeps them.
pub mod task;
pub mod repository;
pub mod config;
