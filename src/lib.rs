pub mod common;
pub mod directives;
pub mod ordering;
pub mod ssh_config;
pub mod task;
pub mod task_fetcher;
pub mod task_runner;
