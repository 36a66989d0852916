//! What holds of the items, warnings and records of a collection.

use crate::cli::args::ReportView;
use crate::collection::error::ErrorView;
use crate::collection::nodes::{all_items, expansion_warnings, item_of, items_of, test_nodeid};
use crate::collection_integration::{
    classified, emitted, empty_split, file_body, file_of, gathered, gathered_from, has_parametrize,
    nodes_in, records, result_lines, split_from, split_tree, CollectedView, ErrorsView,
    GatheredView, SplitView,
};
use crate::python_discovery::case_laws::lemma_nodeid_is_read_back;
use crate::python_discovery::cases::{marker_text, ExpansionView};
use crate::python_discovery::discovery::TestView;
use crate::strings::{has_part, lemma_first_place_is_first, stands_at};
use vstd::prelude::*;

verus! {

// ---------------------------------------------------------------------------------------------
// Tests that cannot be expanded
// ---------------------------------------------------------------------------------------------
/// The node IDs of the tests that cannot be expanded, in order.
pub open spec fn unexpanded(tests: Seq<TestView>, module: Seq<char>) -> Seq<Seq<char>>
    decreases tests.len(),
{
    if tests.len() == 0 {
        seq![]
    } else {
        let before = unexpanded(tests.drop_last(), module);
        if tests.last().cases_expansion is CannotExpand {
            before.push(test_nodeid(module, tests.last().class_name, tests.last().name))
        } else {
            before
        }
    }
}

/// The records on node IDs.
pub open spec fn markers(nodeids: Seq<Seq<char>>) -> Seq<Seq<char>> {
    Seq::new(nodeids.len(), |i: int| marker_text(nodeids[i]))
}

/// None of the texts holds a quote.
pub open spec fn unquoted(list: Seq<Seq<char>>) -> bool {
    forall|i: int| 0 <= i < list.len() ==> !(#[trigger] list[i]).contains('\'')
}

/// Each test that cannot be expanded is warned of, and its node ID recorded, once and in order,
/// where no such ID holds a quote.
pub proof fn lemma_unexpanded_are_recorded(
    tests: Seq<TestView>,
    path: Seq<char>,
    module: Seq<char>,
)
    requires
        unquoted(unexpanded(tests, module)),
    ensures
        expansion_warnings(tests, path, module).len() == unexpanded(tests, module).len(),
        records(expansion_warnings(tests, path, module)) == markers(unexpanded(tests, module)),
    decreases tests.len(),
{
    if tests.len() == 0 {
        assert(records(expansion_warnings(tests, path, module)) =~= markers(
            unexpanded(tests, module),
        ));
    } else {
        let front = tests.drop_last();
        let test = tests.last();
        let all = unexpanded(tests, module);
        let before = unexpanded(front, module);
        assert forall|i: int| 0 <= i < before.len() implies !(#[trigger] before[i]).contains(
            '\'',
        ) by {
            assert(before[i] == all[i]);
        }
        lemma_unexpanded_are_recorded(front, path, module);
        if let ExpansionView::CannotExpand(reason) = test.cases_expansion {
            let id = test_nodeid(module, test.class_name, test.name);
            assert(all[all.len() - 1] == id);
            lemma_nodeid_is_read_back(id, reason);
            let warnings = expansion_warnings(tests, path, module);
            assert(warnings.drop_last() =~= expansion_warnings(front, path, module));
            assert(records(warnings) =~= markers(all));
        }
    }
}

/// A test that cannot be expanded, or has no cases to expand, is collected under its base name.
pub proof fn lemma_base_name_is_collected(
    tests: Seq<TestView>,
    path: Seq<char>,
    module: Seq<char>,
    i: int,
)
    requires
        0 <= i < tests.len(),
        !(tests[i].cases_expansion is Expanded),
    ensures
        all_items(tests, path, module).contains(item_of(tests[i], tests[i].name, path, module)),
    decreases tests.len(),
{
    let front = all_items(tests.drop_last(), path, module);
    let back = items_of(tests.last(), path, module);
    let all = all_items(tests, path, module);
    let item = item_of(tests[i], tests[i].name, path, module);
    if i < tests.len() - 1 {
        lemma_base_name_is_collected(tests.drop_last(), path, module, i);
        let k = choose|k: int| 0 <= k < front.len() && front[k] == item;
        assert(all[k] == item);
    } else {
        assert(back[0] == item);
        assert(all[front.len() as int] == item);
    }
}

/// Each case of an expanded test is collected under its own name.
pub proof fn lemma_cases_are_collected(
    tests: Seq<TestView>,
    path: Seq<char>,
    module: Seq<char>,
    i: int,
    k: int,
)
    requires
        0 <= i < tests.len(),
        tests[i].cases_expansion is Expanded,
        0 <= k < tests[i].cases_expansion->Expanded_0.len(),
    ensures
        all_items(tests, path, module).contains(
            item_of(
                tests[i],
                tests[i].name + seq!['['] + tests[i].cases_expansion->Expanded_0[k] + seq![']'],
                path,
                module,
            ),
        ),
    decreases tests.len(),
{
    let front = all_items(tests.drop_last(), path, module);
    let back = items_of(tests.last(), path, module);
    let all = all_items(tests, path, module);
    let item = item_of(
        tests[i],
        tests[i].name + seq!['['] + tests[i].cases_expansion->Expanded_0[k] + seq![']'],
        path,
        module,
    );
    if i < tests.len() - 1 {
        lemma_cases_are_collected(tests.drop_last(), path, module, i, k);
        let m = choose|m: int| 0 <= m < front.len() && front[m] == item;
        assert(all[m] == item);
    } else {
        assert(back[k] == item);
        assert(all[front.len() + k] == item);
    }
}

/// Cases with different IDs have different node IDs.
pub proof fn lemma_cases_are_told_apart(
    test: TestView,
    path: Seq<char>,
    module: Seq<char>,
    i: int,
    j: int,
)
    requires
        test.cases_expansion is Expanded,
        0 <= i < test.cases_expansion->Expanded_0.len(),
        0 <= j < test.cases_expansion->Expanded_0.len(),
        test.cases_expansion->Expanded_0[i] != test.cases_expansion->Expanded_0[j],
    ensures
        items_of(test, path, module)[i].nodeid != items_of(test, path, module)[j].nodeid,
{
    let ids = test.cases_expansion->Expanded_0;
    let lead = test_nodeid(module, test.class_name, test.name + seq!['[']);
    let a = test_nodeid(module, test.class_name, test.name + seq!['['] + ids[i] + seq![']']);
    let b = test_nodeid(module, test.class_name, test.name + seq!['['] + ids[j] + seq![']']);
    assert(a =~= lead + ids[i] + seq![']']);
    assert(b =~= lead + ids[j] + seq![']']);
    if a == b {
        let n = lead.len() as int;
        assert(a.subrange(n, a.len() - 1) =~= ids[i]);
        assert(b.subrange(n, b.len() - 1) =~= ids[j]);
    }
}

// ---------------------------------------------------------------------------------------------
// Files of tests
// ---------------------------------------------------------------------------------------------
/// The file of a test is its module, where no double colon stands in the module's ID or could
/// arise at its end.
pub proof fn lemma_file_of_test(module: Seq<char>, class: Option<Seq<char>>, name: Seq<char>)
    requires
        !has_part(module.push(':'), "::"@),
    ensures
        file_of(test_nodeid(module, class, name)) == module,
{
    let id = test_nodeid(module, class, name);
    let colons = "::"@;
    let n = module.len() as int;
    reveal_strlit("::");
    assert(colons.len() == 2 && colons[0] == ':' && colons[1] == ':');
    let tail = match class {
        Some(class_name) => class_name + "::"@ + name,
        None => name,
    };
    assert(id =~= module + colons + tail);
    assert(id.subrange(n, n + 2) =~= colons);
    assert(stands_at(id, colons, n));
    assert forall|j: int| 0 <= j < n implies !stands_at(id, colons, j) by {
        if stands_at(id, colons, j) {
            let longer = module.push(':');
            assert(longer.subrange(j, j + 2) =~= id.subrange(j, j + 2));
            assert(stands_at(longer, colons, j));
        }
    }
    lemma_first_place_is_first(id, colons, 0, n);
    assert(id.take(n) =~= module);
}

/// The same nodes and errors were gathered.
pub open spec fn gathered_alike(a: GatheredView, b: GatheredView) -> bool {
    a.nodes == b.nodes && a.errors.errors == b.errors.errors
}

/// Telling files apart does not change which nodes and errors are gathered from a tree. Warnings
/// are left as they were.
pub proof fn lemma_split_gathers_alike(tree: CollectedView, done: SplitView, plain: GatheredView)
    requires
        gathered_alike(done.gathered, plain),
    ensures
        gathered_alike(split_tree(tree, done).gathered, gathered(tree, plain)),
        split_tree(tree, done).gathered.errors.warnings == done.gathered.errors.warnings,
    decreases tree, 0int,
{
    if !tree.node.is_item {
        if let Ok((children, warnings)) = tree.outcome {
            let start = GatheredView {
                errors: ErrorsView { warnings: plain.errors.warnings + warnings, ..plain.errors },
                ..plain
            };
            assert(decreases_to!(tree => tree.outcome));
            assert(decreases_to!(tree.outcome => tree.outcome->Ok_0));
            assert(decreases_to!(tree.outcome->Ok_0 => tree.outcome->Ok_0.0));
            lemma_splits_gather_alike(children, 0, classified(tree, done), start);
        }
    }
}

/// Telling files apart does not change which nodes and errors are gathered from the trees from `i`
/// on. Warnings are left as they were.
pub proof fn lemma_splits_gather_alike(
    trees: Seq<CollectedView>,
    i: int,
    done: SplitView,
    plain: GatheredView,
)
    requires
        0 <= i,
        gathered_alike(done.gathered, plain),
    ensures
        gathered_alike(split_from(trees, i, done).gathered, gathered_from(trees, i, plain)),
        split_from(trees, i, done).gathered.errors.warnings == done.gathered.errors.warnings,
    decreases trees, trees.len() - i,
{
    if i < trees.len() {
        assert(decreases_to!(trees => trees[i]));
        lemma_split_gathers_alike(trees[i], done, plain);
        lemma_splits_gather_alike(
            trees,
            i + 1,
            split_tree(trees[i], done),
            gathered(trees[i], plain),
        );
    }
}

/// The children are items of the file.
pub open spec fn are_items_of(children: Seq<CollectedView>, file: Seq<char>) -> bool {
    forall|i: int|
        0 <= i < children.len() ==> (#[trigger] children[i]).node.is_item && file_of(
            children[i].node.nodeid,
        ) == file
}

/// The node IDs of the children.
pub open spec fn ids_of(children: Seq<CollectedView>) -> Seq<Seq<char>> {
    Seq::new(children.len(), |i: int| children[i].node.nodeid)
}

proof fn lemma_items_are_split(
    children: Seq<CollectedView>,
    i: int,
    file: Seq<char>,
    done: SplitView,
)
    requires
        0 <= i <= children.len(),
        are_items_of(children, file),
    ensures
        ({
            let r = split_from(children, i, done);
            &&& r.simple_files == done.simple_files
            &&& r.param_files == done.param_files
            &&& r.param_file_tests == done.param_file_tests + if done.param_files.contains(file) {
                ids_of(children).skip(i)
            } else {
                seq![]
            }
        }),
    decreases children.len() - i,
{
    let ids = ids_of(children);
    if i < children.len() {
        let next = split_tree(children[i], done);
        lemma_items_are_split(children, i + 1, file, next);
        let r = split_from(children, i, done);
        if done.param_files.contains(file) {
            assert(seq![ids[i]] + ids.skip(i + 1) =~= ids.skip(i));
            assert(r.param_file_tests =~= done.param_file_tests + ids.skip(i));
        } else {
            assert(r.param_file_tests =~= done.param_file_tests + Seq::<Seq<char>>::empty());
        }
    } else {
        assert(split_from(children, i, done) == done);
        assert(ids.skip(i) =~= Seq::<Seq<char>>::empty());
        assert(done.param_file_tests =~= done.param_file_tests + Seq::<Seq<char>>::empty());
    }
}

/// A module is filed by whether its source holds a parametrize decorator, and its tests are
/// gathered as those of a file with parametrized tests just where it does. Its file was not filed
/// otherwise before.
pub proof fn lemma_module_is_split(tree: CollectedView, done: SplitView)
    requires
        !tree.node.is_item,
        tree.source is Some,
        tree.outcome is Ok,
        are_items_of(tree.outcome->Ok_0.0, tree.node.nodeid),
        !done.param_files.contains(tree.node.nodeid),
    ensures
        has_parametrize(tree.source->0) ==> {
            let r = split_tree(tree, done);
            &&& r.param_files == done.param_files.insert(tree.node.nodeid)
            &&& r.simple_files == done.simple_files
            &&& r.param_file_tests == done.param_file_tests + ids_of(tree.outcome->Ok_0.0)
        },
        !has_parametrize(tree.source->0) ==> {
            let r = split_tree(tree, done);
            &&& r.param_files == done.param_files
            &&& r.simple_files == done.simple_files.insert(tree.node.nodeid)
            &&& r.param_file_tests == done.param_file_tests
        },
{
    let children = tree.outcome->Ok_0.0;
    let start = classified(tree, done);
    lemma_items_are_split(children, 0, tree.node.nodeid, start);
    assert(ids_of(children).skip(0) =~= ids_of(children));
    assert(done.param_file_tests + Seq::<Seq<char>>::empty() =~= done.param_file_tests);
}

/// The sources of the files in a tree are those on disk, and each test is named after the file
/// under which it stands.
pub open spec fn is_filed(
    tree: CollectedView,
    disk: spec_fn(Seq<char>) -> Option<Seq<char>>,
) -> bool
    decreases tree, 0int,
{
    &&& !tree.node.is_item
    &&& tree.source == disk(tree.node.nodeid)
    &&& match tree.outcome {
        Ok((children, _)) => are_filed(children, 0, Some(tree.node.nodeid), disk),
        Err(_) => true,
    }
}

/// The trees from `i` on are filed; those that are tests stand under the file.
pub open spec fn are_filed(
    trees: Seq<CollectedView>,
    i: int,
    file: Option<Seq<char>>,
    disk: spec_fn(Seq<char>) -> Option<Seq<char>>,
) -> bool
    decreases trees, trees.len() - i,
{
    if i < 0 || i >= trees.len() {
        true
    } else {
        &&& if trees[i].node.is_item {
            file == Some(file_of(trees[i].node.nodeid))
        } else {
            is_filed(trees[i], disk)
        }
        &&& are_filed(trees, i + 1, file, disk)
    }
}

/// The file on disk holds a parametrize decorator.
pub open spec fn is_param_file(
    disk: spec_fn(Seq<char>) -> Option<Seq<char>>,
    file: Seq<char>,
) -> bool {
    disk(file) is Some && has_parametrize(disk(file)->0)
}

/// The file on disk holds no parametrize decorator.
pub open spec fn is_simple_file(
    disk: spec_fn(Seq<char>) -> Option<Seq<char>>,
    file: Seq<char>,
) -> bool {
    disk(file) is Some && !has_parametrize(disk(file)->0)
}

/// The file is among those of its kind.
pub open spec fn is_listed(
    split: SplitView,
    disk: spec_fn(Seq<char>) -> Option<Seq<char>>,
    file: Seq<char>,
) -> bool {
    &&& is_param_file(disk, file) ==> split.param_files.contains(file)
    &&& is_simple_file(disk, file) ==> split.simple_files.contains(file)
}

/// Files are listed by what is on disk, the file of each test is listed, and the tests of the files
/// with parametrized tests are those of the collected tests whose files are listed so.
pub open spec fn is_parted(
    split: SplitView,
    disk: spec_fn(Seq<char>) -> Option<Seq<char>>,
) -> bool {
    &&& forall|file: Seq<char>| #[trigger]
        split.param_files.contains(file) ==> is_param_file(disk, file)
    &&& forall|file: Seq<char>| #[trigger]
        split.simple_files.contains(file) ==> is_simple_file(disk, file)
    &&& forall|k: int|
        0 <= k < split.gathered.nodes.len() ==> is_listed(
            split,
            disk,
            file_of(#[trigger] split.gathered.nodes[k]),
        )
    &&& split.param_file_tests == nodes_in(split.gathered.nodes, split.param_files)
}

proof fn lemma_same_nodes_in(nodes: Seq<Seq<char>>, files: Set<Seq<char>>, more: Set<Seq<char>>)
    requires
        forall|k: int|
            0 <= k < nodes.len() ==> files.contains(file_of(#[trigger] nodes[k])) == more.contains(
                file_of(nodes[k]),
            ),
    ensures
        nodes_in(nodes, files) == nodes_in(nodes, more),
    decreases nodes.len(),
{
    if nodes.len() > 0 {
        let front = nodes.drop_last();
        assert forall|k: int| 0 <= k < front.len() implies files.contains(
            file_of(#[trigger] front[k]),
        ) == more.contains(file_of(front[k])) by {
            assert(front[k] == nodes[k]);
        }
        lemma_same_nodes_in(front, files, more);
        assert(nodes.last() == nodes[nodes.len() - 1]);
    }
}

proof fn lemma_classified_is_parted(
    tree: CollectedView,
    done: SplitView,
    disk: spec_fn(Seq<char>) -> Option<Seq<char>>,
)
    requires
        tree.source == disk(tree.node.nodeid),
        is_parted(done, disk),
    ensures
        is_parted(classified(tree, done), disk),
        is_listed(classified(tree, done), disk, tree.node.nodeid),
        done.param_files.subset_of(classified(tree, done).param_files),
        done.simple_files.subset_of(classified(tree, done).simple_files),
{
    let now = classified(tree, done);
    let nodes = done.gathered.nodes;
    assert forall|k: int| 0 <= k < nodes.len() implies is_listed(
        now,
        disk,
        file_of(#[trigger] nodes[k]),
    ) && done.param_files.contains(file_of(nodes[k])) == now.param_files.contains(
        file_of(nodes[k]),
    ) by {
        assert(is_listed(done, disk, file_of(nodes[k])));
    }
    lemma_same_nodes_in(nodes, done.param_files, now.param_files);
}

proof fn lemma_tree_is_parted(
    tree: CollectedView,
    done: SplitView,
    disk: spec_fn(Seq<char>) -> Option<Seq<char>>,
)
    requires
        is_filed(tree, disk),
        is_parted(done, disk),
    ensures
        is_parted(split_tree(tree, done), disk),
        done.param_files.subset_of(split_tree(tree, done).param_files),
        done.simple_files.subset_of(split_tree(tree, done).simple_files),
    decreases tree, 0int,
{
    let now = classified(tree, done);
    lemma_classified_is_parted(tree, done, disk);
    match tree.outcome {
        Ok((children, _)) => {
            assert(decreases_to!(tree => tree.outcome));
            assert(decreases_to!(tree.outcome => tree.outcome->Ok_0));
            assert(decreases_to!(tree.outcome->Ok_0 => tree.outcome->Ok_0.0));
            lemma_trees_are_parted(children, 0, Some(tree.node.nodeid), now, disk);
        },
        Err(_) => {
            assert(split_tree(tree, done).gathered.nodes == now.gathered.nodes);
            let r = split_tree(tree, done);
            assert forall|k: int| 0 <= k < r.gathered.nodes.len() implies is_listed(
                r,
                disk,
                file_of(#[trigger] r.gathered.nodes[k]),
            ) by {
                assert(is_listed(now, disk, file_of(now.gathered.nodes[k])));
            }
        },
    }
}

proof fn lemma_trees_are_parted(
    trees: Seq<CollectedView>,
    i: int,
    file: Option<Seq<char>>,
    done: SplitView,
    disk: spec_fn(Seq<char>) -> Option<Seq<char>>,
)
    requires
        0 <= i,
        are_filed(trees, i, file, disk),
        is_parted(done, disk),
        file is Some ==> is_listed(done, disk, file->0),
    ensures
        is_parted(split_from(trees, i, done), disk),
        done.param_files.subset_of(split_from(trees, i, done).param_files),
        done.simple_files.subset_of(split_from(trees, i, done).simple_files),
    decreases trees, trees.len() - i,
{
    if i < trees.len() {
        let tree = trees[i];
        let next = split_tree(tree, done);
        assert(decreases_to!(trees => trees[i]));
        if tree.node.is_item {
            let nodes = next.gathered.nodes;
            assert(nodes == done.gathered.nodes.push(tree.node.nodeid));
            assert forall|k: int| 0 <= k < nodes.len() implies is_listed(
                next,
                disk,
                file_of(#[trigger] nodes[k]),
            ) by {
                if k < done.gathered.nodes.len() {
                    assert(is_listed(done, disk, file_of(done.gathered.nodes[k])));
                }
            }
            assert(nodes.drop_last() =~= done.gathered.nodes);
            assert(nodes.last() == tree.node.nodeid);
        } else {
            lemma_tree_is_parted(tree, done, disk);
        }
        lemma_trees_are_parted(trees, i + 1, file, next, disk);
    }
}

/// The lists of files of a whole collection have no file in common, and hold the files of all tests
/// that could be read. The tests of the files with parametrized tests are exactly the collected
/// tests whose files are among those, in order.
pub proof fn lemma_collection_is_split(
    trees: Seq<CollectedView>,
    path_errors: Seq<(Seq<char>, ErrorView)>,
    disk: spec_fn(Seq<char>) -> Option<Seq<char>>,
)
    requires
        are_filed(trees, 0, None, disk),
    ensures
        ({
            let split = split_from(trees, 0, empty_split(path_errors));
            let nodes = split.gathered.nodes;
            &&& split.param_files.disjoint(split.simple_files)
            &&& split.param_file_tests == nodes_in(nodes, split.param_files)
            &&& forall|k: int|
                0 <= k < nodes.len() && disk(file_of(#[trigger] nodes[k])) is Some ==> {
                    split.param_files.contains(file_of(nodes[k])) != split.simple_files.contains(
                        file_of(nodes[k]),
                    )
                }
        }),
{
    let start = empty_split(path_errors);
    let split = split_from(trees, 0, start);
    let nodes = split.gathered.nodes;
    lemma_trees_are_parted(trees, 0, None, start, disk);
    assert forall|file: Seq<char>| #[trigger] split.param_files.contains(file) implies
        !split.simple_files.contains(file) by {
        assert(is_param_file(disk, file));
    }
    assert forall|k: int|
        0 <= k < nodes.len() && disk(file_of(#[trigger] nodes[k])) is Some implies
        split.param_files.contains(file_of(nodes[k])) != split.simple_files.contains(
        file_of(nodes[k]),
    ) by {
        assert(is_listed(split, disk, file_of(nodes[k])));
    }
}

// ---------------------------------------------------------------------------------------------
// Displays
// ---------------------------------------------------------------------------------------------
/// Wherever the records go, the results and the warnings in words are shown first on standard
/// output, and the records are in one place at most.
pub proof fn lemma_results_are_always_shown(
    nodes: Seq<Seq<char>>,
    errors: ErrorsView,
    dest: ReportView,
)
    ensures
        ({
            let shown = emitted(result_lines(nodes, errors), records(errors.warnings), dest);
            let lines = result_lines(nodes, errors);
            &&& lines.is_prefix_of(shown.stdout)
            &&& !(dest is Stdout) ==> shown.stdout == lines
            &&& !(dest is Stderr) ==> shown.stderr.len() == 0
            &&& shown.file is Some <==> dest is File
        }),
{
    let lines = result_lines(nodes, errors);
    let more = lines + records(errors.warnings);
    assert(more.subrange(0, lines.len() as int) =~= lines);
    assert(lines.subrange(0, lines.len() as int) =~= lines);
}

/// The warning on a test that cannot be expanded names the file of the module, and no line.
pub proof fn lemma_place_of_warnings(
    tests: Seq<TestView>,
    path: Seq<char>,
    module: Seq<char>,
    k: int,
)
    requires
        0 <= k < expansion_warnings(tests, path, module).len(),
    ensures
        expansion_warnings(tests, path, module)[k].file_path == path,
        expansion_warnings(tests, path, module)[k].line == 0,
    decreases tests.len(),
{
    let front = tests.drop_last();
    let before = expansion_warnings(front, path, module);
    if k < before.len() {
        lemma_place_of_warnings(front, path, module, k);
        assert(expansion_warnings(tests, path, module)[k] == before[k]);
    }
}

/// All records go where they are asked for, in order: behind the results on standard output, to error
/// output, or to the named file. Where none are asked for, they go nowhere.
pub proof fn lemma_records_go_where_asked(
    shown: Seq<Seq<char>>,
    lines: Seq<Seq<char>>,
    path: Seq<char>,
)
    ensures
        emitted(shown, lines, ReportView::Stdout).stdout == shown + lines,
        emitted(shown, lines, ReportView::Stderr).stderr == lines,
        emitted(shown, lines, ReportView::File(path)).file == Some((path, file_body(lines))),
        emitted(shown, lines, ReportView::Omit).stdout == shown,
        emitted(shown, lines, ReportView::Omit).stderr.len() == 0,
        emitted(shown, lines, ReportView::Omit).file is None,
{
}

} // verus!
