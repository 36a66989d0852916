//! Collection and scheduling logic of a Python test runner.
//!
//! Test files are read as syntax trees, never imported: the modules below find the tests in a
//! tree, expand parametrized tests into cases, and decide what a run of the tool does with them.

pub mod cli;
pub mod collection;
pub mod collection_integration;
pub mod collection_laws;
pub mod config;
pub mod display_laws;
pub mod gathering_laws;
pub mod native_runner;
pub mod ordered;
pub mod python_discovery;
pub mod run_laws;
pub mod runner;
pub mod strings;
pub mod table;
pub mod worker_laws;

pub use collection::error::{CollectionError, CollectionResult};
pub use collection_integration::{
    collect_tests_rust, collect_tests_rust_with_split, display_collection_results,
};
pub use cli::args::{determine_worker_count, DistributionMode};
pub use native_runner::{
    collect_test_files, default_python_classes, default_python_files, default_python_functions,
    execute_native, NativeRunnerConfig,
};
pub use runner::PytestRunner;
