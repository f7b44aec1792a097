//! Running pipelines: the step results, the runners and the command
//! execution they delegate to.
pub mod cached_runner;
pub mod cmd_runner;
pub mod exec;
pub mod output;
pub mod pipeline_runner;
pub mod simple_runner;
pub mod split_runner;
