//! Python test discovery module.
//!
//! This module provides functionality for discovering tests in Python code
//! by parsing the source and identifying test functions and classes based on
//! configurable naming patterns.

pub mod ancestry_laws;
pub mod case_laws;
pub mod cases;
pub mod constant_laws;
pub mod constant_resolver;
pub mod constants;
pub mod decorators;
pub mod discovery;
pub mod discovery_laws;
pub mod import_laws;
pub mod inheritance_laws;
pub mod inline_laws;
pub mod inline_visitor;
pub mod loading_laws;
pub mod module_laws;
pub mod module_resolver;
pub mod numbers;
pub mod parametrize_laws;
pub mod parser;
pub mod pattern;
pub mod resolution_laws;
pub mod semantic_analyzer;
pub mod stdlib;
pub mod syntax;
pub mod visitor;
pub mod visitor_laws;
pub mod waiting;

// Re-export public API
pub use cases::{
    cannot_expand_nodeid_from_message, format_cannot_expand_marker, format_cannot_expand_warning,
    CannotExpandReason, CasesExpansion, ExpandedCase, CANNOT_EXPAND_MARKER,
};
pub use discovery::{
    discover_tests, discover_tests_with_inheritance, TestDiscoveryConfig, TestInfo,
};
pub use module_resolver::{ModuleResolver, ParsedModule};
pub use semantic_analyzer::{SemanticTestDiscovery, TestClassInfo};
