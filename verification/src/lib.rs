//! A local, Git-friendly issue tracker: tasks with a status, an assignee,
//! a parent and linked files, kept in a table that hands out local ids, and
//! mirrored one file per task for sharing.
pub mod text;
pub mod domain;
pub mod path;
pub mod usecase;
pub mod presentation;
pub mod infrastructure;
