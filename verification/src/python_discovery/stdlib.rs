//! Python's own modules, as the `ruff_python_stdlib` crate lists them.

use vstd::prelude::*;

verus! {

/// Whether `ruff_python_stdlib::sys::is_known_standard_library` lists a module for Python
/// 3.`minor`.
pub uninterp spec fn in_standard_library(minor: u8, module: Seq<char>) -> bool;

/// Whether `ruff_python_stdlib::sys::is_builtin_module` lists a module for Python 3.`minor`.
pub uninterp spec fn built_in(minor: u8, module: Seq<char>) -> bool;

/// `ruff_python_stdlib::sys::is_known_standard_library`: a lookup of the module's name in a fixed
/// list for the Python version; the result depends on the two arguments alone.
#[verifier::external_body]
pub(crate) fn is_known_standard_library(minor: u8, module: &str) -> (r: bool)
    ensures
        r == in_standard_library(minor, module@),
{
    ruff_python_stdlib::sys::is_known_standard_library(minor, module)
}

/// `ruff_python_stdlib::sys::is_builtin_module`: a lookup of the module's name in a fixed list for
/// the Python version; the result depends on the two arguments alone.
#[verifier::external_body]
pub(crate) fn is_builtin_module(minor: u8, module: &str) -> (r: bool)
    ensures
        r == built_in(minor, module@),
{
    ruff_python_stdlib::sys::is_builtin_module(minor, module)
}

} // verus!
