//! Core engine of a concurrent task runner: the dependency graph of tasks
//! and its simplification, job filtering, the per-task supervisor state
//! machine and its reload protocol, output redirection, the file watcher's
//! filtering, environment layering, and the exit-status aggregation.

// values and shared specifications
pub mod graph;
pub mod lift;
pub mod marks;
pub mod text;

// configuration and the task graph
pub mod config;
pub mod dag;
pub mod jobs;
pub mod loader;
pub mod serial;

// running tasks
pub mod env;
pub mod exec;
pub mod pipe;
pub mod reaper;
pub mod supervisor;
pub mod watcher;

// presentation
pub mod console;
pub mod graph_task;
