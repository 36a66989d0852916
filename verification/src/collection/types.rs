//! Collection types and traits.

use crate::strings::{copy, text_of};
use vstd::prelude::*;

verus! {

/// Location information for a test item
#[derive(Debug)]
pub struct Location {
    pub path: String,
    pub line: Option<usize>,
    pub name: String,
}

/// View of a [`Location`].
pub ghost struct LocationView {
    pub path: Seq<char>,
    pub line: Option<usize>,
    pub name: Seq<char>,
}

impl Location {
    pub open spec fn view(&self) -> LocationView {
        LocationView { path: self.path@, line: self.line, name: self.name@ }
    }
}

/// What the file system says of a path.
#[derive(Debug)]
pub struct PathInfo {
    /// The path in full.
    pub path: String,
    /// The path relative to the session's root, or in full where it lies elsewhere.
    pub relative: String,
    /// The last name on the path.
    pub file_name: Option<String>,
    pub exists: bool,
    pub is_dir: bool,
    pub is_file: bool,
}

/// View of a [`PathInfo`].
pub ghost struct PathView {
    pub path: Seq<char>,
    pub relative: Seq<char>,
    pub file_name: Option<Seq<char>>,
    pub exists: bool,
    pub is_dir: bool,
    pub is_file: bool,
}

impl PathInfo {
    pub open spec fn view(&self) -> PathView {
        PathView {
            path: self.path@,
            relative: self.relative@,
            file_name: text_of(self.file_name),
            exists: self.exists,
            is_dir: self.is_dir,
            is_file: self.is_file,
        }
    }
}

/// The last name on a path, or nothing.
pub open spec fn name_or_empty(file_name: Option<Seq<char>>) -> Seq<char> {
    match file_name {
        Some(name) => name,
        None => seq![],
    }
}

impl PathInfo {
    /// The last name on the path, or nothing.
    pub fn name(&self) -> (r: String)
        ensures
            r@ == name_or_empty(self@.file_name),
    {
        match &self.file_name {
            Some(name) => copy(name.as_str()),
            None => {
                let r = String::new();
                assert(r@ =~= Seq::<char>::empty());
                r
            },
        }
    }
}

/// A failure to read from the file system.
#[derive(Debug)]
pub struct IoFailure {
    pub permission_denied: bool,
    pub message: String,
}

/// What every node of the collection tree tells of itself.
pub ghost struct NodeView {
    pub nodeid: Seq<char>,
    pub path: Seq<char>,
    /// The node ID of the parent collector, if any.
    pub parent: Option<Seq<char>>,
    pub is_item: bool,
    pub is_parametrized: bool,
    pub has_uncertain_params: bool,
}

/// Base trait for all collectible nodes
pub trait Collector {
    /// What the node tells of itself.
    spec fn node(&self) -> NodeView;

    /// Unique identifier for this node
    fn nodeid(&self) -> (r: &str)
        ensures
            r@ == self.node().nodeid,
    ;

    /// Node ID of the parent collector, if any
    fn parent(&self) -> (r: Option<&str>)
        ensures
            match r {
                Some(id) => self.node().parent == Some(id@),
                None => self.node().parent is None,
            },
    ;

    /// Get the path associated with this collector
    fn path(&self) -> (r: &str)
        ensures
            r@ == self.node().path,
    ;

    /// Check if this is a test item (leaf node)
    fn is_item(&self) -> (r: bool)
        ensures
            r == self.node().is_item,
    ;

    /// Check if this test item originated from a parametrized decorator
    fn is_parametrized(&self) -> (r: bool)
        ensures
            r == self.node().is_parametrized,
    ;

    /// Check if this test has parametrize values with uncertain formatting
    fn has_uncertain_params(&self) -> (r: bool)
        ensures
            r == self.node().has_uncertain_params,
    ;
}

} // verus!
