//! Exit codes for the CLI.
//!
//! These follow standard conventions and match pytest's exit codes where applicable.

use vstd::prelude::*;

verus! {

/// Successful execution.
pub const OK: i32 = 0;

/// Tests were collected and run but some failed.
pub const TESTS_FAILED: i32 = 1;

/// File or directory not found.
pub const USAGE_ERROR: i32 = 4;

} // verus!
