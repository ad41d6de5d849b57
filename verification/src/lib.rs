//! An application install/uninstall engine: a declarative description of
//! filesystem entries to create is resolved into an ordered task list,
//! executed task by task, and every mutation actually performed is
//! durably recorded so it can later be reversed — rollback on a partial
//! failure, or a full uninstall of a persisted application.
//!
//! The filesystem, the clock and the on-disk store live outside this
//! crate: resolution and installation are driven step by step by the
//! surrounding program, which performs each listing or write and reports
//! the outcome back. What is proved here is the logic in between — path
//! validation and containment, task ordering, the truthfulness of the
//! undo log, its loss-free binary form, and the persistence contracts.

pub mod application;
pub mod config;
pub mod database;
pub mod file_system;
pub mod installer;
pub mod installer_builder;
pub mod recorder;
