//! Integration between collection and pytest execution.

use crate::cli::args::{CannotExpandReport, ReportView};
use crate::collection::error::{
    error_text, warning_line, warning_views, CollectionError, CollectionOutcome, CollectionWarning,
    ErrorView, WarningView,
};
use crate::collection::nodes::Node;
use crate::collection::types::{Collector, NodeView};
use crate::collection_laws::lemma_splits_gather_alike;
use crate::python_discovery::cases::{
    cannot_expand_nodeid_from_message, format_cannot_expand_marker, marker_text, quoted_nodeid,
};
use crate::strings::{
    chars_of, contains, copy, find, first_place, has_part, holds, join, joined, nat_text, same,
    string_of, texts, usize_string,
};
use crate::ordered::{insert_text, is_sorted};
use vstd::prelude::*;

verus! {

// ---------------------------------------------------------------------------------------------
// Collected trees
// ---------------------------------------------------------------------------------------------
/// A node with what it collected. `source` is the text of a Python source file; other nodes have
/// none.
#[derive(Debug)]
pub struct Collected {
    pub node: Node,
    pub source: Option<String>,
    pub outcome: Result<(Vec<Collected>, Vec<CollectionWarning>), CollectionError>,
}

/// View of a [`Collected`].
pub ghost struct CollectedView {
    pub node: NodeView,
    pub source: Option<Seq<char>>,
    pub outcome: Result<(Seq<CollectedView>, Seq<WarningView>), ErrorView>,
}

impl Collected {
    pub open spec fn view(&self) -> CollectedView
        decreases self,
    {
        CollectedView {
            node: self.node.node(),
            source: crate::strings::text_of(self.source),
            outcome: match self.outcome {
                Ok((children, warnings)) => Ok((collected_views(children@), warning_views(warnings@))),
                Err(error) => Err(error@),
            },
        }
    }
}

pub open spec fn collected_views(list: Seq<Collected>) -> Seq<CollectedView>
    decreases list,
{
    Seq::new(
        list.len(),
        |i: int|
            if 0 <= i < list.len() {
                list[i].view()
            } else {
                arbitrary()
            },
    )
}

/// Collection report
#[derive(Debug)]
pub struct CollectReport<'a> {
    pub nodeid: String,
    pub outcome: CollectionOutcome,
    pub longrepr: Option<String>,
    pub error_type: Option<&'a CollectionError>,
    pub result: &'a [Collected],
    pub warnings: &'a [CollectionWarning],
}

impl<'a> CollectReport<'a> {
    pub fn new(
        nodeid: String,
        outcome: CollectionOutcome,
        longrepr: Option<String>,
        error_type: Option<&'a CollectionError>,
        result: &'a [Collected],
        warnings: &'a [CollectionWarning],
    ) -> (r: Self)
        ensures
            r.nodeid == nodeid,
            r.outcome == outcome,
            r.longrepr == longrepr,
            r.error_type == error_type,
            r.result == result,
            r.warnings == warnings,
    {
        CollectReport { nodeid, outcome, longrepr, error_type, result, warnings }
    }
}

/// Collect a single node and return a report
pub fn collect_one_node<'a>(collector: &'a Collected) -> (r: CollectReport<'a>)
    ensures
        r.nodeid@ == collector@.node.nodeid,
        match collector.outcome {
            Ok((children, warnings)) => {
                &&& r.outcome == CollectionOutcome::Passed
                &&& r.longrepr is None
                &&& r.error_type is None
                &&& r.result@ == children@
                &&& r.warnings@ == warnings@
            },
            Err(error) => {
                &&& r.outcome == CollectionOutcome::Failed
                &&& r.longrepr is Some && r.longrepr->0@ == error_text(error@)
                &&& r.error_type is Some && *r.error_type->0 == error
                &&& r.result@.len() == 0
                &&& r.warnings@.len() == 0
            },
        },
{
    let nodeid = copy(collector.node.nodeid());
    match &collector.outcome {
        Ok((result, warnings)) => CollectReport::new(
            nodeid,
            CollectionOutcome::Passed,
            None,
            None,
            result.as_slice(),
            warnings.as_slice(),
        ),
        Err(e) => CollectReport::new(
            nodeid,
            CollectionOutcome::Failed,
            Some(e.describe()),
            Some(e),
            &[],
            &[],
        ),
    }
}

/// Holds errors and warnings encountered during collection
#[derive(Debug)]
pub struct CollectionErrors {
    pub errors: Vec<(String, CollectionError)>,
    pub warnings: Vec<CollectionWarning>,
}

/// View of [`CollectionErrors`].
pub ghost struct ErrorsView {
    pub errors: Seq<(Seq<char>, ErrorView)>,
    pub warnings: Seq<WarningView>,
}

pub open spec fn error_views(list: Seq<(String, CollectionError)>) -> Seq<(Seq<char>, ErrorView)> {
    Seq::new(list.len(), |i: int| (list[i].0@, list[i].1@))
}

impl CollectionErrors {
    pub open spec fn view(&self) -> ErrorsView {
        ErrorsView {
            errors: error_views(self.errors@),
            warnings: warning_views(self.warnings@),
        }
    }

    /// No errors and no warnings.
    pub fn new() -> (r: Self)
        ensures
            r@ == (ErrorsView { errors: seq![], warnings: seq![] }),
    {
        let r = CollectionErrors { errors: Vec::new(), warnings: Vec::new() };
        assert(r@.errors =~= Seq::<(Seq<char>, ErrorView)>::empty());
        assert(r@.warnings =~= Seq::<WarningView>::empty());
        r
    }

    fn push_error(&mut self, nodeid: &str, error: &CollectionError)
        ensures
            final(self)@ == (ErrorsView {
                errors: old(self)@.errors.push((nodeid@, error@)),
                ..old(self)@
            }),
    {
        let ghost before = self@;
        self.errors.push((copy(nodeid), error.copy()));
        assert(self@.errors =~= before.errors.push((nodeid@, error@)));
    }

    fn extend_warnings(&mut self, more: &[CollectionWarning])
        ensures
            final(self)@ == (ErrorsView {
                warnings: old(self)@.warnings + warning_views(more@),
                ..old(self)@
            }),
    {
        let ghost before = self@;
        let ghost views = warning_views(more@);
        let mut i: usize = 0;
        assert(self@.warnings =~= before.warnings + views.take(0));
        while i < more.len()
            invariant
                i <= more@.len(),
                views == warning_views(more@),
                self@.errors == before.errors,
                self@.warnings == before.warnings + views.take(i as int),
            decreases more@.len() - i,
        {
            let ghost now = self@.warnings;
            self.warnings.push(more[i].copy());
            i = i + 1;
            assert(self@.warnings =~= now.push(more@[i - 1]@));
            assert(before.warnings + views.take(i as int) =~= (before.warnings + views.take(
                i - 1,
            )).push(views[i - 1]));
        }
        assert(views.take(views.len() as int) =~= views);
    }
}

// ---------------------------------------------------------------------------------------------
// Items
// ---------------------------------------------------------------------------------------------
/// What a walk through the collected trees has gathered.
pub ghost struct GatheredView {
    pub nodes: Seq<Seq<char>>,
    pub errors: ErrorsView,
}

/// `done` with the items of a tree, in order: the node IDs of its items, its warnings, and its
/// failures under the node IDs of the failed nodes.
pub open spec fn gathered(tree: CollectedView, done: GatheredView) -> GatheredView
    decreases tree, 0int,
{
    if tree.node.is_item {
        GatheredView { nodes: done.nodes.push(tree.node.nodeid), ..done }
    } else {
        match tree.outcome {
            Ok((children, warnings)) => gathered_from(
                children,
                0,
                GatheredView {
                    errors: ErrorsView {
                        warnings: done.errors.warnings + warnings,
                        ..done.errors
                    },
                    ..done
                },
            ),
            Err(error) => GatheredView {
                errors: ErrorsView {
                    errors: done.errors.errors.push((tree.node.nodeid, error)),
                    ..done.errors
                },
                ..done
            },
        }
    }
}

/// `done` with the items of the trees from `i` on.
pub open spec fn gathered_from(
    trees: Seq<CollectedView>,
    i: int,
    done: GatheredView,
) -> GatheredView
    decreases trees, trees.len() - i,
{
    if i < 0 || i >= trees.len() {
        done
    } else {
        gathered_from(trees, i + 1, gathered(trees[i], done))
    }
}

proof fn lemma_children_are_smaller(tree: CollectedView)
    requires
        tree.outcome is Ok,
    ensures
        decreases_to!(tree => tree.outcome->Ok_0.0),
{
    assert(decreases_to!(tree => tree.outcome));
    assert(decreases_to!(tree.outcome => tree.outcome->Ok_0));
    assert(decreases_to!(tree.outcome->Ok_0 => tree.outcome->Ok_0.0));
}

fn push_text(list: &mut Vec<String>, s: &str)
    ensures
        texts(final(list)@) == texts(old(list)@).push(s@),
{
    let ghost before = list@;
    list.push(copy(s));
    assert(texts(list@) =~= texts(before).push(s@));
}

/// Recursively collect all test items
pub fn collect_items_recursive(
    collector: &Collected,
    test_nodes: &mut Vec<String>,
    collection_errors: &mut CollectionErrors,
)
    ensures
        (GatheredView {
            nodes: texts(final(test_nodes)@),
            errors: final(collection_errors)@,
        }) == gathered(
            collector@,
            GatheredView { nodes: texts(old(test_nodes)@), errors: old(collection_errors)@ },
        ),
    decreases collector@,
{
    if collector.node.is_item() {
        push_text(test_nodes, collector.node.nodeid());
        return;
    }
    let report = collect_one_node(collector);
    match report.outcome {
        CollectionOutcome::Passed => {
            let ghost start = GatheredView {
                nodes: texts(test_nodes@),
                errors: ErrorsView {
                    warnings: collection_errors@.warnings + warning_views(report.warnings@),
                    ..collection_errors@
                },
            };
            collection_errors.extend_warnings(report.warnings);
            let ghost children = collected_views(report.result@);
            proof {
                assert(collector@.outcome == Ok::<
                    (Seq<CollectedView>, Seq<WarningView>),
                    ErrorView,
                >((children, warning_views(report.warnings@))));
                lemma_children_are_smaller(collector@);
            }
            let mut i: usize = 0;
            while i < report.result.len()
                invariant
                    i <= report.result@.len(),
                    children == collected_views(report.result@),
                    decreases_to!(collector@ => children),
                    gathered_from(children, 0, start) == gathered_from(
                        children,
                        i as int,
                        GatheredView { nodes: texts(test_nodes@), errors: collection_errors@ },
                    ),
                decreases report.result@.len() - i,
            {
                assert(children[i as int] == report.result@[i as int]@);
                assert(decreases_to!(children => children[i as int]));
                collect_items_recursive(&report.result[i], test_nodes, collection_errors);
                i = i + 1;
            }
        },
        _ => {
            if let Some(error) = report.error_type {
                collection_errors.push_error(report.nodeid.as_str(), error);
            }
        },
    }
}

/// The errors of paths that could not be collected at all.
pub type PathErrors = Vec<(String, CollectionError)>;

/// The node IDs of all test items of the collected trees, with the errors and warnings on the way;
/// `path_errors` come first. A collection that failed as a whole is handed on.
pub fn collect_tests_rust(
    collected: Result<(Vec<Collected>, PathErrors), CollectionError>,
) -> (r: Result<(Vec<String>, CollectionErrors), CollectionError>)
    ensures
        match (collected, r) {
            (Err(error), Err(same)) => same == error,
            (Ok((trees, path_errors)), Ok((nodes, errors))) => (GatheredView {
                nodes: texts(nodes@),
                errors: errors@,
            }) == gathered_from(
                collected_views(trees@),
                0,
                GatheredView {
                    nodes: seq![],
                    errors: ErrorsView { errors: error_views(path_errors@), warnings: seq![] },
                },
            ),
            _ => false,
        },
{
    let (trees, path_errors) = match collected {
        Ok(found) => found,
        Err(error) => {
            return Err(error);
        },
    };
    let ghost start = GatheredView {
        nodes: seq![],
        errors: ErrorsView { errors: error_views(path_errors@), warnings: seq![] },
    };
    let mut errors = CollectionErrors { errors: path_errors, warnings: Vec::new() };
    let mut nodes: Vec<String> = Vec::new();
    let ghost views = collected_views(trees@);
    proof {
        assert(texts(nodes@) =~= Seq::<Seq<char>>::empty());
        assert(errors@.warnings =~= Seq::<WarningView>::empty());
    }
    let mut i: usize = 0;
    while i < trees.len()
        invariant
            i <= trees@.len(),
            views == collected_views(trees@),
            gathered_from(views, 0, start) == gathered_from(
                views,
                i as int,
                GatheredView { nodes: texts(nodes@), errors: errors@ },
            ),
        decreases trees@.len() - i,
    {
        assert(views[i as int] == trees@[i as int]@);
        collect_items_recursive(&trees[i], &mut nodes, &mut errors);
        i = i + 1;
    }
    Ok((nodes, errors))
}

// ---------------------------------------------------------------------------------------------
// Files with and without parametrized tests
// ---------------------------------------------------------------------------------------------
/// Results from collection with parametrize tracking
#[derive(Debug)]
pub struct CollectionResultsWithSplit {
    pub test_nodes: Vec<String>,
    pub errors: CollectionErrors,
    /// Files without parametrized tests (relative paths)
    pub simple_files: Vec<String>,
    /// Files with parametrized tests (relative paths)
    pub param_files: Vec<String>,
    /// Test nodes from parametrized files only
    pub param_file_tests: Vec<String>,
}

/// View of [`CollectionResultsWithSplit`]; the files are seen as sets.
pub ghost struct SplitView {
    pub gathered: GatheredView,
    pub simple_files: Set<Seq<char>>,
    pub param_files: Set<Seq<char>>,
    pub param_file_tests: Seq<Seq<char>>,
}

impl CollectionResultsWithSplit {
    pub open spec fn view(&self) -> SplitView {
        SplitView {
            gathered: GatheredView { nodes: texts(self.test_nodes@), errors: self.errors@ },
            simple_files: texts(self.simple_files@).to_set(),
            param_files: texts(self.param_files@).to_set(),
            param_file_tests: texts(self.param_file_tests@),
        }
    }

    /// The lists of files are sorted and hold no file twice.
    pub open spec fn is_ordered(&self) -> bool {
        is_sorted(texts(self.simple_files@)) && is_sorted(texts(self.param_files@))
    }
}

/// The source holds a parametrize decorator.
pub open spec fn has_parametrize(source: Seq<char>) -> bool {
    has_part(source, "@pytest.mark.parametrize"@) || has_part(source, "@mark.parametrize"@)
        || has_part(source, "@parametrize("@)
}

/// Check if source code contains parametrize decorators
pub fn source_has_parametrize(source: &str) -> (r: bool)
    ensures
        r == has_parametrize(source@),
{
    contains(source, "@pytest.mark.parametrize") || contains(source, "@mark.parametrize")
        || contains(source, "@parametrize(")
}

/// The file that a node ID starts with: what stands before the first `::`.
pub open spec fn file_of(nodeid: Seq<char>) -> Seq<char> {
    match first_place(nodeid, "::"@, 0) {
        Some(at) => nodeid.take(at),
        None => nodeid,
    }
}

/// The file that a node ID starts with.
pub fn nodeid_file(nodeid: &str) -> (r: String)
    ensures
        r@ == file_of(nodeid@),
{
    let chars = chars_of(nodeid);
    let colons = chars_of("::");
    match find(chars.as_slice(), colons.as_slice()) {
        Some(at) => {
            let r = string_of(chars.as_slice(), 0, at);
            assert(r@ =~= nodeid@.take(at as int));
            r
        },
        None => copy(nodeid),
    }
}

/// `done` with a node's source file among those with or without parametrized tests.
pub open spec fn classified(tree: CollectedView, done: SplitView) -> SplitView {
    match tree.source {
        None => done,
        Some(source) => if has_parametrize(source) {
            SplitView { param_files: done.param_files.insert(tree.node.nodeid), ..done }
        } else {
            SplitView { simple_files: done.simple_files.insert(tree.node.nodeid), ..done }
        },
    }
}

/// `done` with the items and errors of a tree, as [`gathered`], and its files told apart. The tests
/// of a file that is known to hold parametrized tests are gathered once more on their own. Warnings
/// are not gathered.
pub open spec fn split_tree(tree: CollectedView, done: SplitView) -> SplitView
    decreases tree, 0int,
{
    if tree.node.is_item {
        let nodeid = tree.node.nodeid;
        SplitView {
            gathered: GatheredView { nodes: done.gathered.nodes.push(nodeid), ..done.gathered },
            param_file_tests: if done.param_files.contains(file_of(nodeid)) {
                done.param_file_tests.push(nodeid)
            } else {
                done.param_file_tests
            },
            ..done
        }
    } else {
        let now = classified(tree, done);
        match tree.outcome {
            Ok((children, _)) => split_from(children, 0, now),
            Err(error) => SplitView {
                gathered: GatheredView {
                    errors: ErrorsView {
                        errors: now.gathered.errors.errors.push((tree.node.nodeid, error)),
                        ..now.gathered.errors
                    },
                    ..now.gathered
                },
                ..now
            },
        }
    }
}

/// `done` with the items and files of the trees from `i` on.
pub open spec fn split_from(trees: Seq<CollectedView>, i: int, done: SplitView) -> SplitView
    decreases trees, trees.len() - i,
{
    if i < 0 || i >= trees.len() {
        done
    } else {
        split_from(trees, i + 1, split_tree(trees[i], done))
    }
}

/// Nothing collected yet.
pub open spec fn empty_split(path_errors: Seq<(Seq<char>, ErrorView)>) -> SplitView {
    SplitView {
        gathered: GatheredView {
            nodes: seq![],
            errors: ErrorsView { errors: path_errors, warnings: seq![] },
        },
        simple_files: Set::empty(),
        param_files: Set::empty(),
        param_file_tests: seq![],
    }
}

/// Recursively collect test items while tracking parametrized vs simple files
pub fn collect_items_recursive_with_split(
    collector: &Collected,
    results: &mut CollectionResultsWithSplit,
)
    requires
        old(results).is_ordered(),
    ensures
        final(results).is_ordered(),
        final(results)@ == split_tree(collector@, old(results)@),
    decreases collector@,
{
    let ghost before = results@;
    let nodeid = collector.node.nodeid();
    if collector.node.is_item() {
        push_text(&mut results.test_nodes, nodeid);
        // Check if this test's file is in param_files
        let file = nodeid_file(nodeid);
        if holds(results.param_files.as_slice(), file.as_str()) {
            push_text(&mut results.param_file_tests, nodeid);
        }
        return;
    }
    // Check if this is a Python file (Module) and classify it
    if let Some(source) = &collector.source {
        if source_has_parametrize(source.as_str()) {
            insert_text(&mut results.param_files, nodeid);
        } else {
            insert_text(&mut results.simple_files, nodeid);
        }
    }
    assert(results@ == classified(collector@, before));
    let report = collect_one_node(collector);
    match report.outcome {
        CollectionOutcome::Passed => {
            let ghost start = results@;
            let ghost children = collected_views(report.result@);
            proof {
                assert(collector@.outcome == Ok::<
                    (Seq<CollectedView>, Seq<WarningView>),
                    ErrorView,
                >((children, warning_views(report.warnings@))));
                lemma_children_are_smaller(collector@);
                assert(split_tree(collector@, before) == split_from(children, 0, start));
            }
            let mut i: usize = 0;
            while i < report.result.len()
                invariant
                    i <= report.result@.len(),
                    results.is_ordered(),
                    children == collected_views(report.result@),
                    decreases_to!(collector@ => children),
                    split_from(children, 0, start) == split_from(children, i as int, results@),
                decreases report.result@.len() - i,
            {
                assert(children[i as int] == report.result@[i as int]@);
                assert(decreases_to!(children => children[i as int]));
                collect_items_recursive_with_split(&report.result[i], results);
                i = i + 1;
            }
        },
        _ => {
            if let Some(error) = report.error_type {
                results.errors.push_error(report.nodeid.as_str(), error);
            }
        },
    }
}

/// The test items of the collected trees, split by whether their files hold parametrized tests. The
/// lists of files are sorted. No warnings are gathered.
pub fn collect_tests_rust_with_split(
    collected: Result<(Vec<Collected>, PathErrors), CollectionError>,
) -> (r: Result<CollectionResultsWithSplit, CollectionError>)
    ensures
        match (collected, r) {
            (Err(error), Err(same)) => same == error,
            (Ok((trees, path_errors)), Ok(results)) => results.is_ordered() && results@
                == split_from(
                collected_views(trees@),
                0,
                empty_split(error_views(path_errors@)),
            ),
            _ => false,
        },
        r is Ok ==> r->Ok_0.errors.warnings@.len() == 0,
{
    let (trees, path_errors) = match collected {
        Ok(found) => found,
        Err(error) => {
            return Err(error);
        },
    };
    let ghost start = empty_split(error_views(path_errors@));
    let mut results = CollectionResultsWithSplit {
        test_nodes: Vec::new(),
        errors: CollectionErrors { errors: path_errors, warnings: Vec::new() },
        simple_files: Vec::new(),
        param_files: Vec::new(),
        param_file_tests: Vec::new(),
    };
    let ghost views = collected_views(trees@);
    proof {
        assert(texts(results.test_nodes@) =~= Seq::<Seq<char>>::empty());
        assert(texts(results.param_file_tests@) =~= Seq::<Seq<char>>::empty());
        assert(results.errors@.warnings =~= Seq::<WarningView>::empty());
        assert(texts(results.simple_files@).to_set() =~= Set::<Seq<char>>::empty());
        assert(texts(results.param_files@).to_set() =~= Set::<Seq<char>>::empty());
    }
    let mut i: usize = 0;
    while i < trees.len()
        invariant
            i <= trees@.len(),
            results.is_ordered(),
            views == collected_views(trees@),
            split_from(views, 0, start) == split_from(views, i as int, results@),
        decreases trees@.len() - i,
    {
        assert(views[i as int] == trees@[i as int]@);
        collect_items_recursive_with_split(&trees[i], &mut results);
        i = i + 1;
    }
    proof {
        lemma_splits_gather_alike(views, 0, start, start.gathered);
    }
    Ok(results)
}

/// An item makes its file uncertain: its parameters are, or it has parameters and all such tests
/// are taken to be uncertain.
pub open spec fn is_uncertain(item: NodeView, all_parametrized: bool) -> bool {
    item.has_uncertain_params || (all_parametrized && item.is_parametrized)
}

/// `done` with the files of the uncertain items in a tree.
pub open spec fn uncertain_in(
    tree: CollectedView,
    all_parametrized: bool,
    done: Set<Seq<char>>,
) -> Set<Seq<char>>
    decreases tree, 0int,
{
    if tree.node.is_item {
        if is_uncertain(tree.node, all_parametrized) {
            done.insert(file_of(tree.node.nodeid))
        } else {
            done
        }
    } else {
        match tree.outcome {
            Ok((children, _)) => uncertain_from(children, all_parametrized, 0, done),
            Err(_) => done,
        }
    }
}

/// `done` with the files of the uncertain items in the trees from `i` on.
pub open spec fn uncertain_from(
    trees: Seq<CollectedView>,
    all_parametrized: bool,
    i: int,
    done: Set<Seq<char>>,
) -> Set<Seq<char>>
    decreases trees, trees.len() - i,
{
    if i < 0 || i >= trees.len() {
        done
    } else {
        uncertain_from(
            trees,
            all_parametrized,
            i + 1,
            uncertain_in(trees[i], all_parametrized, done),
        )
    }
}

fn collect_uncertain(collector: &Collected, all_parametrized: bool, files: &mut Vec<String>)
    requires
        is_sorted(texts(old(files)@)),
    ensures
        is_sorted(texts(final(files)@)),
        texts(final(files)@).to_set() == uncertain_in(
            collector@,
            all_parametrized,
            texts(old(files)@).to_set(),
        ),
    decreases collector@,
{
    if collector.node.is_item() {
        if collector.node.has_uncertain_params() || (all_parametrized
            && collector.node.is_parametrized()) {
            let file = nodeid_file(collector.node.nodeid());
            insert_text(files, file.as_str());
        }
        return;
    }
    if let Ok((children, _)) = &collector.outcome {
        let ghost views = collected_views(children@);
        let ghost start = texts(files@).to_set();
        proof {
            assert(collector@.outcome->Ok_0.0 == views);
            lemma_children_are_smaller(collector@);
        }
        let mut i: usize = 0;
        while i < children.len()
            invariant
                i <= children@.len(),
                views == collected_views(children@),
                decreases_to!(collector@ => views),
                is_sorted(texts(files@)),
                uncertain_from(views, all_parametrized, 0, start) == uncertain_from(
                    views,
                    all_parametrized,
                    i as int,
                    texts(files@).to_set(),
                ),
            decreases children@.len() - i,
        {
            assert(views[i as int] == children@[i as int]@);
            assert(decreases_to!(views => views[i as int]));
            collect_uncertain(&children[i], all_parametrized, files);
            i = i + 1;
        }
    }
}

/// The files whose collected tests may differ from what pytest collects, sorted.
pub fn uncertain_files(trees: &[Collected], all_parametrized: bool) -> (r: Vec<String>)
    ensures
        is_sorted(texts(r@)),
        texts(r@).to_set() == uncertain_from(
            collected_views(trees@),
            all_parametrized,
            0,
            Set::empty(),
        ),
{
    let ghost views = collected_views(trees@);
    let mut files: Vec<String> = Vec::new();
    assert(texts(files@) =~= Seq::<Seq<char>>::empty());
    assert(texts(files@).to_set() =~= Set::<Seq<char>>::empty());
    let mut i: usize = 0;
    while i < trees.len()
        invariant
            i <= trees@.len(),
            views == collected_views(trees@),
            is_sorted(texts(files@)),
            uncertain_from(views, all_parametrized, 0, Set::empty()) == uncertain_from(
                views,
                all_parametrized,
                i as int,
                texts(files@).to_set(),
            ),
        decreases trees@.len() - i,
    {
        assert(views[i as int] == trees@[i as int]@);
        collect_uncertain(&trees[i], all_parametrized, &mut files);
        i = i + 1;
    }
    files
}

/// The node IDs whose files are in the set, in order.
pub open spec fn nodes_in(nodes: Seq<Seq<char>>, files: Set<Seq<char>>) -> Seq<Seq<char>>
    decreases nodes.len(),
{
    if nodes.len() == 0 {
        seq![]
    } else {
        let before = nodes_in(nodes.drop_last(), files);
        if files.contains(file_of(nodes.last())) {
            before.push(nodes.last())
        } else {
            before
        }
    }
}

/// The tests of the files without parametrized tests.
pub fn simple_tests(results: &CollectionResultsWithSplit) -> (r: Vec<String>)
    ensures
        texts(r@) == nodes_in(results@.gathered.nodes, results@.simple_files),
{
    let ghost nodes = texts(results.test_nodes@);
    let ghost files = results@.simple_files;
    let mut r: Vec<String> = Vec::new();
    let mut i: usize = 0;
    proof {
        assert(nodes.take(0) =~= Seq::<Seq<char>>::empty());
        assert(texts(r@) =~= Seq::<Seq<char>>::empty());
    }
    while i < results.test_nodes.len()
        invariant
            i <= results.test_nodes@.len(),
            nodes == texts(results.test_nodes@),
            files == texts(results.simple_files@).to_set(),
            texts(r@) == nodes_in(nodes.take(i as int), files),
        decreases results.test_nodes@.len() - i,
    {
        proof {
            assert(nodes.take(i + 1).drop_last() =~= nodes.take(i as int));
            assert(nodes.take(i + 1).last() == results.test_nodes@[i as int]@);
        }
        let node = results.test_nodes[i].as_str();
        let file = nodeid_file(node);
        if holds(results.simple_files.as_slice(), file.as_str()) {
            push_text(&mut r, node);
        }
        i = i + 1;
    }
    assert(nodes.take(nodes.len() as int) =~= nodes);
    r
}

// ---------------------------------------------------------------------------------------------
// Display
// ---------------------------------------------------------------------------------------------
/// `text` between two colour codes.
pub open spec fn colored(color: Seq<char>, text: Seq<char>) -> Seq<char> {
    color + text + "\x1b[0m"@
}

fn color(code: &str, text: &str) -> (r: String)
    ensures
        r@ == colored(code@, text@),
{
    let mut r = copy(code);
    r.append(text);
    r.append("\x1b[0m");
    r
}

/// The lines on the errors.
pub open spec fn error_lines(errors: Seq<(Seq<char>, ErrorView)>) -> Seq<Seq<char>>
    decreases errors.len(),
{
    if errors.len() == 0 {
        seq![]
    } else {
        error_lines(errors.drop_last()).push(
            colored("\x1b[1;31m"@, "_ ERROR collecting "@ + errors.last().0 + " _"@),
        ).push(colored("\x1b[31m"@, "E   "@ + error_text(errors.last().1)))
    }
}

/// `count` things, in words.
pub open spec fn counted(prefix: Seq<char>, count: nat, thing: Seq<char>) -> Seq<char> {
    prefix + nat_text(count) + thing + if count == 1 {
        seq![]
    } else {
        seq!['s']
    }
}

fn count_words(prefix: &str, count: usize, thing: &str) -> (r: String)
    ensures
        r@ == counted(prefix@, count as nat, thing@),
{
    let mut r = copy(prefix);
    r.append(usize_string(count).as_str());
    r.append(thing);
    if count != 1 {
        r.push('s');
    }
    assert(r@ =~= counted(prefix@, count as nat, thing@));
    r
}

/// The parts of the summary: only what there is is counted.
pub open spec fn summary_parts(items: nat, errors: nat, warnings: nat) -> Seq<Seq<char>> {
    let one = if items > 0 {
        seq![counted("collected "@, items, " item"@)]
    } else {
        seq![]
    };
    let two = if errors > 0 {
        one.push(counted(seq![], errors, " error"@))
    } else {
        one
    };
    if warnings > 0 {
        two.push(counted(seq![], warnings, " warning"@))
    } else {
        two
    }
}

/// The lines with the test items.
pub open spec fn item_lines(nodes: Seq<Seq<char>>) -> Seq<Seq<char>> {
    Seq::new(nodes.len(), |i: int| "  "@ + nodes[i])
}

/// The lines with the warnings.
pub open spec fn warning_lines(warnings: Seq<WarningView>) -> Seq<Seq<char>> {
    Seq::new(warnings.len(), |i: int| colored("\x1b[33m"@, warning_line(warnings[i])))
}

/// The section on the errors, if there are any.
pub open spec fn error_section(errors: Seq<(Seq<char>, ErrorView)>) -> Seq<Seq<char>> {
    if errors.len() == 0 {
        seq![]
    } else {
        seq![
            "===================================== ERRORS ======================================"@,
        ] + error_lines(errors) + seq![
            "!!!!!!!!!!!!!!!!!!!!! Warning: "@ + nat_text(errors.len())
                + " errors during collection !!!!!!!!!!!!!!!!!!!!!"@,
        ]
    }
}

/// The section on the items: the summary and the list of tests.
pub open spec fn item_section(nodes: Seq<Seq<char>>, errors: nat, warnings: nat) -> Seq<
    Seq<char>,
> {
    if nodes.len() == 0 && errors == 0 {
        seq!["No tests collected."@]
    } else {
        seq![joined(summary_parts(nodes.len(), errors, warnings), " / "@)] + if nodes.len() > 0 {
            seq![Seq::<char>::empty()] + item_lines(nodes)
        } else {
            seq![]
        }
    }
}

/// The section on the warnings, if there are any.
pub open spec fn warning_section(warnings: Seq<WarningView>) -> Seq<Seq<char>> {
    if warnings.len() == 0 {
        seq![]
    } else {
        seq![
            Seq::<char>::empty(),
            "=============================== warnings summary ==============================="@,
        ] + warning_lines(warnings) + seq![
            "-- Docs: https://docs.pytest.org/en/stable/how-to/capture-warnings.html"@,
        ]
    }
}

/// The lines that show the results of a collection.
pub open spec fn result_lines(nodes: Seq<Seq<char>>, errors: ErrorsView) -> Seq<Seq<char>> {
    error_section(errors.errors) + item_section(
        nodes,
        errors.errors.len(),
        errors.warnings.len(),
    ) + warning_section(errors.warnings)
}

fn append_texts(list: &mut Vec<String>, more: Vec<String>)
    ensures
        texts(final(list)@) == texts(old(list)@) + texts(more@),
{
    let ghost before = list@;
    let ghost added = more@;
    let mut rest = more;
    list.append(&mut rest);
    assert(texts(list@) =~= texts(before) + texts(added));
}

fn show_errors(errors: &CollectionErrors) -> (r: Vec<String>)
    ensures
        texts(r@) == error_section(errors@.errors),
{
    let ghost views = errors@.errors;
    let mut lines: Vec<String> = Vec::new();
    if errors.errors.len() == 0 {
        assert(texts(lines@) =~= Seq::<Seq<char>>::empty());
        return lines;
    }
    let header =
        "===================================== ERRORS ======================================";
    push_text(&mut lines, header);
    let mut i: usize = 0;
    proof {
        assert(views.take(0) =~= Seq::<(Seq<char>, ErrorView)>::empty());
        assert(texts(lines@) =~= seq![header@] + error_lines(views.take(0)));
    }
    while i < errors.errors.len()
        invariant
            i <= errors.errors@.len(),
            views == error_views(errors.errors@),
            texts(lines@) == seq![header@] + error_lines(views.take(i as int)),
        decreases errors.errors@.len() - i,
    {
        let nodeid = errors.errors[i].0.as_str();
        let mut title = copy("_ ERROR collecting ");
        title.append(nodeid);
        title.append(" _");
        let mut text = copy("E   ");
        text.append(errors.errors[i].1.describe().as_str());
        let ghost before = lines@;
        push_text(&mut lines, color("\x1b[1;31m", title.as_str()).as_str());
        push_text(&mut lines, color("\x1b[31m", text.as_str()).as_str());
        i = i + 1;
        proof {
            let now = views.take(i as int);
            assert(now.drop_last() =~= views.take(i - 1));
            assert(now.last() == (errors.errors@[i - 1].0@, errors.errors@[i - 1].1@));
            assert(texts(lines@) =~= seq![header@] + error_lines(now));
        }
    }
    assert(views.take(views.len() as int) =~= views);
    let mut footer = copy("!!!!!!!!!!!!!!!!!!!!! Warning: ");
    footer.append(usize_string(errors.errors.len()).as_str());
    footer.append(" errors during collection !!!!!!!!!!!!!!!!!!!!!");
    push_text(&mut lines, footer.as_str());
    assert(texts(lines@) =~= error_section(views));
    lines
}

fn show_items(test_nodes: &[String], error_count: usize, warning_count: usize) -> (r: Vec<String>)
    ensures
        texts(r@) == item_section(
            texts(test_nodes@),
            error_count as nat,
            warning_count as nat,
        ),
{
    let ghost nodes = texts(test_nodes@);
    let mut lines: Vec<String> = Vec::new();
    if test_nodes.len() == 0 && error_count == 0 {
        push_text(&mut lines, "No tests collected.");
        assert(texts(lines@) =~= seq!["No tests collected."@]);
        return lines;
    }
    let mut parts: Vec<String> = Vec::new();
    let nothing = String::new();
    assert(nothing@ =~= Seq::<char>::empty());
    assert(texts(parts@) =~= Seq::<Seq<char>>::empty());
    if test_nodes.len() > 0 {
        push_text(&mut parts, count_words("collected ", test_nodes.len(), " item").as_str());
    }
    if error_count > 0 {
        push_text(&mut parts, count_words(nothing.as_str(), error_count, " error").as_str());
    }
    if warning_count > 0 {
        push_text(&mut parts, count_words(nothing.as_str(), warning_count, " warning").as_str());
    }
    let ghost wanted = summary_parts(nodes.len(), error_count as nat, warning_count as nat);
    assert(texts(parts@) =~= wanted);
    push_text(&mut lines, join(parts.as_slice(), " / ").as_str());
    let ghost summary = seq![joined(wanted, " / "@)];
    assert(texts(lines@) =~= summary);
    if test_nodes.len() > 0 {
        push_text(&mut lines, nothing.as_str());
        let ghost start = summary + seq![Seq::<char>::empty()];
        let ghost items = item_lines(nodes);
        let mut i: usize = 0;
        assert(texts(lines@) =~= start + items.take(0));
        while i < test_nodes.len()
            invariant
                i <= test_nodes@.len(),
                nodes == texts(test_nodes@),
                items == item_lines(nodes),
                texts(lines@) == start + items.take(i as int),
            decreases test_nodes@.len() - i,
        {
            let mut line = copy("  ");
            line.append(test_nodes[i].as_str());
            let ghost before = texts(lines@);
            push_text(&mut lines, line.as_str());
            i = i + 1;
            assert(items[i - 1] == line@);
            assert(start + items.take(i as int) =~= (start + items.take(i - 1)).push(
                items[i - 1],
            ));
        }
        assert(items.take(items.len() as int) =~= items);
        assert(start + items =~= summary + (seq![Seq::<char>::empty()] + items));
    } else {
        assert(summary + Seq::<Seq<char>>::empty() =~= summary);
    }
    lines
}

fn show_warnings(warnings: &[CollectionWarning]) -> (r: Vec<String>)
    ensures
        texts(r@) == warning_section(warning_views(warnings@)),
{
    let ghost views = warning_views(warnings@);
    let mut lines: Vec<String> = Vec::new();
    if warnings.len() == 0 {
        assert(texts(lines@) =~= Seq::<Seq<char>>::empty());
        return lines;
    }
    let nothing = String::new();
    assert(nothing@ =~= Seq::<char>::empty());
    let header = "=============================== warnings summary ===============================";
    push_text(&mut lines, nothing.as_str());
    push_text(&mut lines, header);
    let ghost start = seq![Seq::<char>::empty(), header@];
    let ghost all = warning_lines(views);
    let mut i: usize = 0;
    assert(texts(lines@) =~= start + all.take(0));
    while i < warnings.len()
        invariant
            i <= warnings@.len(),
            views == warning_views(warnings@),
            all == warning_lines(views),
            texts(lines@) == start + all.take(i as int),
        decreases warnings@.len() - i,
    {
        let line = color("\x1b[33m", warnings[i].describe().as_str());
        push_text(&mut lines, line.as_str());
        i = i + 1;
        assert(all[i - 1] == line@);
        assert(start + all.take(i as int) =~= (start + all.take(i - 1)).push(all[i - 1]));
    }
    assert(all.take(all.len() as int) =~= all);
    push_text(
        &mut lines,
        "-- Docs: https://docs.pytest.org/en/stable/how-to/capture-warnings.html",
    );
    assert(texts(lines@) =~= warning_section(views));
    lines
}

/// The records on the tests that cannot be expanded, in the order of their warnings.
pub open spec fn records(warnings: Seq<WarningView>) -> Seq<Seq<char>>
    decreases warnings.len(),
{
    if warnings.len() == 0 {
        seq![]
    } else {
        let before = records(warnings.drop_last());
        match quoted_nodeid(warnings.last().message) {
            Some(nodeid) => before.push(marker_text(nodeid)),
            None => before,
        }
    }
}

/// The records on the tests that cannot be expanded.
pub fn cannot_expand_records(warnings: &[CollectionWarning]) -> (r: Vec<String>)
    ensures
        texts(r@) == records(warning_views(warnings@)),
{
    let ghost views = warning_views(warnings@);
    let mut lines: Vec<String> = Vec::new();
    let mut i: usize = 0;
    proof {
        assert(views.take(0) =~= Seq::<WarningView>::empty());
        assert(texts(lines@) =~= Seq::<Seq<char>>::empty());
    }
    while i < warnings.len()
        invariant
            i <= warnings@.len(),
            views == warning_views(warnings@),
            texts(lines@) == records(views.take(i as int)),
        decreases warnings@.len() - i,
    {
        proof {
            assert(views.take(i + 1).drop_last() =~= views.take(i as int));
            assert(views.take(i + 1).last() == warnings@[i as int]@);
        }
        if let Some(nodeid) = cannot_expand_nodeid_from_message(warnings[i].message.as_str()) {
            push_text(&mut lines, format_cannot_expand_marker(nodeid).as_str());
        }
        i = i + 1;
    }
    assert(views.take(views.len() as int) =~= views);
    lines
}

/// What is shown: lines on the two standard streams, and a file to be written.
#[derive(Debug)]
pub struct Display {
    pub stdout: Vec<String>,
    pub stderr: Vec<String>,
    /// Path and contents.
    pub file: Option<(String, String)>,
}

/// View of a [`Display`].
pub ghost struct DisplayView {
    pub stdout: Seq<Seq<char>>,
    pub stderr: Seq<Seq<char>>,
    pub file: Option<(Seq<char>, Seq<char>)>,
}

impl Display {
    pub open spec fn view(&self) -> DisplayView {
        DisplayView {
            stdout: texts(self.stdout@),
            stderr: texts(self.stderr@),
            file: match self.file {
                Some((path, body)) => Some((path@, body@)),
                None => None,
            },
        }
    }
}

/// The contents of a file with the lines, each of which is ended.
pub open spec fn file_body(lines: Seq<Seq<char>>) -> Seq<char> {
    let body = joined(lines, "\n"@);
    if body.len() == 0 {
        body
    } else {
        body.push('\n')
    }
}

/// Where the records go.
pub open spec fn emitted(
    stdout: Seq<Seq<char>>,
    lines: Seq<Seq<char>>,
    dest: ReportView,
) -> DisplayView {
    match dest {
        ReportView::Omit => DisplayView { stdout, stderr: seq![], file: None },
        ReportView::Stdout => DisplayView { stdout: stdout + lines, stderr: seq![], file: None },
        ReportView::Stderr => DisplayView { stdout, stderr: lines, file: None },
        ReportView::File(path) => DisplayView {
            stdout,
            stderr: seq![],
            file: Some((path, file_body(lines))),
        },
    }
}

/// Adds the records on the tests that cannot be expanded to the lines on standard output.
pub fn emit_cannot_expand_records(
    stdout: Vec<String>,
    errors: &CollectionErrors,
    dest: &CannotExpandReport,
) -> (r: Display)
    ensures
        r@ == emitted(texts(stdout@), records(errors@.warnings), dest@),
{
    let lines = cannot_expand_records(errors.warnings.as_slice());
    let none: Vec<String> = Vec::new();
    assert(texts(none@) =~= Seq::<Seq<char>>::empty());
    match dest {
        CannotExpandReport::Omit => Display { stdout, stderr: none, file: None },
        CannotExpandReport::Stdout => {
            let mut all = stdout;
            append_texts(&mut all, lines);
            Display { stdout: all, stderr: none, file: None }
        },
        CannotExpandReport::Stderr => Display { stdout, stderr: lines, file: None },
        CannotExpandReport::File(path) => {
            let mut body = join(lines.as_slice(), "\n");
            if !body.as_str().is_empty() {
                body.push('\n');
            }
            Display { stdout, stderr: none, file: Some((copy(path.as_str()), body)) }
        },
    }
}

/// Display collection results in a format similar to pytest
pub fn display_collection_results(
    test_nodes: &[String],
    errors: &CollectionErrors,
    cannot_expand: &CannotExpandReport,
) -> (r: Display)
    ensures
        r@ == emitted(
            result_lines(texts(test_nodes@), errors@),
            records(errors@.warnings),
            cannot_expand@,
        ),
{
    let mut lines = show_errors(errors);
    append_texts(
        &mut lines,
        show_items(test_nodes, errors.errors.len(), errors.warnings.len()),
    );
    append_texts(&mut lines, show_warnings(errors.warnings.as_slice()));
    emit_cannot_expand_records(lines, errors, cannot_expand)
}

} // verus!
