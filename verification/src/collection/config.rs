//! Configuration of test collection.

use crate::python_discovery::discovery::one_string;
use crate::strings::{copy, texts};
use vstd::prelude::*;

verus! {

/// What a session collects, and where.
#[derive(Debug)]
pub struct CollectionConfig {
    pub testpaths: Vec<String>,
    /// Paths that hold one of these texts are ignored.
    pub ignore_patterns: Vec<String>,
    /// Directories whose name matches one of these are not entered.
    pub norecursedirs: Vec<String>,
    pub python_files: Vec<String>,
    pub python_classes: Vec<String>,
    pub python_functions: Vec<String>,
}

/// View of a [`CollectionConfig`].
pub ghost struct CollectionConfigView {
    pub testpaths: Seq<Seq<char>>,
    pub ignore_patterns: Seq<Seq<char>>,
    pub norecursedirs: Seq<Seq<char>>,
    pub python_files: Seq<Seq<char>>,
    pub python_classes: Seq<Seq<char>>,
    pub python_functions: Seq<Seq<char>>,
}

impl CollectionConfig {
    pub open spec fn view(&self) -> CollectionConfigView {
        CollectionConfigView {
            testpaths: texts(self.testpaths@),
            ignore_patterns: texts(self.ignore_patterns@),
            norecursedirs: texts(self.norecursedirs@),
            python_files: texts(self.python_files@),
            python_classes: texts(self.python_classes@),
            python_functions: texts(self.python_functions@),
        }
    }
}

/// The defaults of pytest.
pub open spec fn default_config() -> CollectionConfigView {
    CollectionConfigView {
        testpaths: seq![],
        ignore_patterns: seq![],
        norecursedirs: seq![
            "*.egg"@,
            ".*"@,
            "_darcs"@,
            "build"@,
            "CVS"@,
            "dist"@,
            "node_modules"@,
            "venv"@,
            "{arch}"@,
        ],
        python_files: seq!["test_*.py"@, "*_test.py"@],
        python_classes: seq!["Test*"@],
        python_functions: seq!["test*"@],
    }
}

/// Adds a string to a list.
pub fn push_string(list: &mut Vec<String>, s: &str)
    ensures
        texts(final(list)@) == texts(old(list)@).push(s@),
{
    let ghost before = list@;
    list.push(copy(s));
    assert(texts(list@) =~= texts(before).push(s@));
}

impl Default for CollectionConfig {
    fn default() -> (r: Self)
        ensures
            r@ == default_config(),
    {
        let mut norecursedirs = one_string("*.egg");
        push_string(&mut norecursedirs, ".*");
        push_string(&mut norecursedirs, "_darcs");
        push_string(&mut norecursedirs, "build");
        push_string(&mut norecursedirs, "CVS");
        push_string(&mut norecursedirs, "dist");
        push_string(&mut norecursedirs, "node_modules");
        push_string(&mut norecursedirs, "venv");
        push_string(&mut norecursedirs, "{arch}");
        let mut python_files = one_string("test_*.py");
        push_string(&mut python_files, "*_test.py");
        let r = CollectionConfig {
            testpaths: Vec::new(),
            ignore_patterns: Vec::new(),
            norecursedirs,
            python_files,
            python_classes: one_string("Test*"),
            python_functions: one_string("test*"),
        };
        proof {
            assert(r@.testpaths =~= default_config().testpaths);
            assert(r@.ignore_patterns =~= default_config().ignore_patterns);
            assert(r@.norecursedirs =~= default_config().norecursedirs);
            assert(r@.python_files =~= default_config().python_files);
        }
        r
    }
}

} // verus!
