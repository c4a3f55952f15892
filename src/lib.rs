//! Scaffolding of a new project's directory tree.
//!
//! The engine decides, from what is found on disk, which file-system steps each
//! operation takes; the caller carries the steps out. `model` gives the steps
//! their meaning on a model of the file system, and states the laws that the
//! engine's plans obey there.
pub mod app;
pub mod args;
pub mod file_manager;
pub mod fresh_run;
pub mod model;
pub mod paths;
