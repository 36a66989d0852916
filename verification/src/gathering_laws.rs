//! What a session collects: where it starts, what it takes and passes over, and what it gathers.

use crate::collection::config::CollectionConfigView;
use crate::collection::nodes::{
    all_items, first_missing, holds_any, ignores, items_of, node_at, nodes_at, readable_from,
    start_paths, test_nodeid, SessionView, StartView, TreeNodeView,
};
use crate::collection::types::{IoFailure, NodeView, PathInfo, PathView};
use crate::collection::utils::glob_accepts;
use crate::collection_integration::{
    file_of, gathered, gathered_from, has_parametrize, nodes_in, uncertain_from, uncertain_in,
    CollectedView, ErrorsView, GatheredView,
};
use crate::display_laws::lemma_part_of_sum;
use crate::python_discovery::discovery::TestView;
use crate::strings::{has_part, stands_at};
use vstd::prelude::*;

verus! {

// ---------------------------------------------------------------------------------------------
// Where a session starts
// ---------------------------------------------------------------------------------------------
/// The places tell the paths back: there is one for each path, and it is that path from the root.
pub open spec fn tell_from_root(places: Seq<StartView>, paths: Seq<Seq<char>>) -> bool {
    &&& places.len() == paths.len()
    &&& forall|i: int|
        0 <= i < paths.len() ==> (#[trigger] places[i]) is FromRoot && places[i]->FromRoot_0
            == paths[i]
}

/// A session starts at each of its arguments, taken from the root; without any, at each of the
/// configured test paths, taken from the root; without these, at its own test paths as they are, or
/// else at its root alone.
pub proof fn lemma_session_starts(
    args: Seq<Seq<char>>,
    configured: Seq<Seq<char>>,
    own: Seq<Seq<char>>,
)
    ensures
        args.len() > 0 ==> tell_from_root(start_paths(args, configured, own), args),
        args.len() == 0 && configured.len() > 0 ==> tell_from_root(
            start_paths(args, configured, own),
            configured,
        ),
        args.len() == 0 && configured.len() == 0 && own.len() > 0 ==> {
            let places = start_paths(args, configured, own);
            &&& places.len() == own.len()
            &&& forall|i: int|
                0 <= i < own.len() ==> (#[trigger] places[i]) is Plain && places[i]->Plain_0
                    == own[i]
        },
        args.len() == 0 && configured.len() == 0 && own.len() == 0 ==> {
            let places = start_paths(args, configured, own);
            places.len() == 1 && places[0] is Root
        },
{
}

/// Every argument is among the places at which a session starts, and different arguments give
/// different places.
pub proof fn lemma_every_argument_is_a_start(
    args: Seq<Seq<char>>,
    configured: Seq<Seq<char>>,
    own: Seq<Seq<char>>,
    i: int,
    j: int,
)
    requires
        0 <= i < args.len(),
        0 <= j < args.len(),
    ensures
        start_paths(args, configured, own).contains(StartView::FromRoot(args[i])),
        args[i] != args[j] ==> start_paths(args, configured, own)[i] != start_paths(
            args,
            configured,
            own,
        )[j],
{
    let places = start_paths(args, configured, own);
    lemma_session_starts(args, configured, own);
    assert(places[i] is FromRoot && places[i]->FromRoot_0 == args[i]);
    assert(places[j] is FromRoot && places[j]->FromRoot_0 == args[j]);
    assert(places[i] == StartView::FromRoot(args[i]));
}

/// The first path that does not exist is missing, and all before it exist; where all exist, none
/// is.
pub proof fn lemma_first_missing(paths: Seq<PathView>, k: int)
    requires
        0 <= k <= paths.len(),
        forall|i: int| 0 <= i < k ==> (#[trigger] paths[i]).exists,
        k < paths.len() ==> !paths[k].exists,
    ensures
        k < paths.len() ==> first_missing(paths, 0) == Some(paths[k].path),
        k == paths.len() ==> first_missing(paths, 0) is None,
{
    lemma_missing_from(paths, 0, k);
}

proof fn lemma_missing_from(paths: Seq<PathView>, i: int, k: int)
    requires
        0 <= i <= k <= paths.len(),
        forall|i: int| 0 <= i < k ==> (#[trigger] paths[i]).exists,
        k < paths.len() ==> !paths[k].exists,
    ensures
        k < paths.len() ==> first_missing(paths, i) == Some(paths[k].path),
        k == paths.len() ==> first_missing(paths, i) is None,
    decreases k - i,
{
    if i < k {
        assert(paths[i].exists);
        lemma_missing_from(paths, i + 1, k);
    }
}

// ---------------------------------------------------------------------------------------------
// What is taken
// ---------------------------------------------------------------------------------------------
/// The session passes over the path: a cache directory, a path in which an ignored text stands, or
/// a directory whose name one of the patterns accepts.
pub open spec fn is_left_out(config: CollectionConfigView, path: PathView) -> bool {
    ||| path.file_name == Some("__pycache__"@)
    ||| (exists|i: int, at: int|
        0 <= i < config.ignore_patterns.len() && #[trigger] stands_at(
            path.path,
            config.ignore_patterns[i],
            at,
        ))
    ||| path.is_dir && exists|i: int|
        0 <= i < config.norecursedirs.len() && glob_accepts(
            #[trigger] config.norecursedirs[i],
            match path.file_name {
                Some(name) => name,
                None => seq![],
            },
        )
}

/// A path gives a node just where it is not passed over, and is a directory or a file whose name
/// one of the patterns for test files accepts. The node tells the path, and is known by the path
/// relative to the root.
pub proof fn lemma_what_is_taken(session: SessionView, path: PathView)
    ensures
        is_left_out(session.config, path) ==> node_at(session, path) is None,
        !is_left_out(session.config, path) && path.is_dir ==> {
            &&& node_at(session, path) is Some
            &&& node_at(session, path)->0 is Directory
            &&& node_at(session, path)->0->Directory_0.path == path.path
            &&& node_at(session, path)->0->Directory_0.nodeid == path.relative
        },
        !is_left_out(session.config, path) && !path.is_dir && path.is_file && (exists|i: int|
            0 <= i < session.config.python_files.len() && glob_accepts(
                #[trigger] session.config.python_files[i],
                match path.file_name {
                    Some(name) => name,
                    None => seq![],
                },
            )) ==> {
            &&& node_at(session, path) is Some
            &&& node_at(session, path)->0 is Module
            &&& node_at(session, path)->0->Module_0.path == path.path
            &&& node_at(session, path)->0->Module_0.nodeid == path.relative
        },
        node_at(session, path) is Some && !path.is_dir ==> path.is_file && exists|i: int|
            0 <= i < session.config.python_files.len() && glob_accepts(
                #[trigger] session.config.python_files[i],
                match path.file_name {
                    Some(name) => name,
                    None => seq![],
                },
            ),
{
    let config = session.config;
    let texts = config.ignore_patterns;
    if holds_any(path.path, texts) {
        let i = choose|i: int| 0 <= i < texts.len() && has_part(path.path, #[trigger] texts[i]);
        let at = choose|at: int| stands_at(path.path, texts[i], at);
        assert(stands_at(path.path, config.ignore_patterns[i], at));
    }
    if exists|i: int, at: int|
        0 <= i < texts.len() && #[trigger] stands_at(path.path, texts[i], at) {
        let (i, at) = choose|i: int, at: int|
            0 <= i < texts.len() && #[trigger] stands_at(path.path, texts[i], at);
        assert(has_part(path.path, texts[i]));
        assert(holds_any(path.path, texts));
    }
    assert(is_left_out(config, path) == ignores(config, path));
}

/// What is taken of two lists of paths is what is taken of the one and then of the other; of a
/// single path it is that path's node, if it has one.
pub proof fn lemma_taken_in_order(session: SessionView, a: Seq<PathView>, b: Seq<PathView>)
    ensures
        nodes_at(session, a + b) == nodes_at(session, a) + nodes_at(session, b),
        a.len() == 1 ==> nodes_at(session, a) == match node_at(session, a[0]) {
            Some(node) => seq![node],
            None => seq![],
        },
        nodes_at(session, seq![]).len() == 0,
    decreases b.len(),
{
    if a.len() == 1 {
        assert(a.drop_last() =~= Seq::<PathView>::empty());
        assert(nodes_at(session, a.drop_last()) =~= Seq::<TreeNodeView>::empty());
        if let Some(node) = node_at(session, a[0]) {
            assert(nodes_at(session, a) =~= seq![node]);
        }
    }
    if b.len() == 0 {
        assert(a + b =~= a);
        assert(nodes_at(session, a) + nodes_at(session, b) =~= nodes_at(session, a));
    } else {
        let front = b.drop_last();
        lemma_taken_in_order(session, a, front);
        assert((a + b).drop_last() =~= a + front);
        assert((a + b).last() == b.last());
        assert(nodes_at(session, a + b) =~= nodes_at(session, a) + nodes_at(session, b));
    }
}

// ---------------------------------------------------------------------------------------------
// Items
// ---------------------------------------------------------------------------------------------
/// The node ID of a test names its module, then its class if it has one, then the test, with double
/// colons between them.
pub proof fn lemma_nodeids(module: Seq<char>, class: Seq<char>, name: Seq<char>)
    ensures
        test_nodeid(module, None, name) == module + seq![':', ':'] + name,
        test_nodeid(module, Some(class), name) == module + seq![':', ':'] + class + seq![':', ':']
            + name,
{
    reveal_strlit("::");
    assert("::"@ =~= seq![':', ':']);
}

/// The items of two lists of tests are those of the one and then those of the other.
pub proof fn lemma_items_in_order(
    a: Seq<TestView>,
    b: Seq<TestView>,
    path: Seq<char>,
    module: Seq<char>,
)
    ensures
        all_items(a + b, path, module) == all_items(a, path, module) + all_items(b, path, module),
        all_items(seq![], path, module).len() == 0,
    decreases b.len(),
{
    if b.len() == 0 {
        assert(a + b =~= a);
        assert(all_items(a, path, module) + all_items(b, path, module) =~= all_items(
            a,
            path,
            module,
        ));
    } else {
        let front = b.drop_last();
        lemma_items_in_order(a, front, path, module);
        assert((a + b).drop_last() =~= a + front);
        assert((a + b).last() == b.last());
        let last = items_of(b.last(), path, module);
        assert(all_items(a, path, module) + (all_items(front, path, module) + last) =~= all_items(
            a,
            path,
            module,
        ) + all_items(front, path, module) + last);
    }
}

/// A test gives one item for each of its cases, in order, or else a single one. The node ID of an
/// item is that of the test, for a case with the ID of the case in brackets behind it.
pub proof fn lemma_items_of_a_test(test: TestView, path: Seq<char>, module: Seq<char>, k: int)
    requires
        test.cases_expansion is Expanded ==> 0 <= k < test.cases_expansion->Expanded_0.len(),
        !(test.cases_expansion is Expanded) ==> k == 0,
    ensures
        ({
            let items = items_of(test, path, module);
            let plain = test_nodeid(module, test.class_name, test.name);
            &&& items.len() == if test.cases_expansion is Expanded {
                test.cases_expansion->Expanded_0.len()
            } else {
                1
            }
            &&& items[k].nodeid == plain + if test.cases_expansion is Expanded {
                seq!['['] + test.cases_expansion->Expanded_0[k] + seq![']']
            } else {
                seq![]
            }
            &&& items[k].location.path == path
            &&& items[k].location.name == items[k].name
            &&& test.line <= usize::MAX ==> items[k].location.line is Some
                && items[k].location.line->0 == test.line
            &&& items[k].is_parametrized == test.is_parametrized
            &&& items[k].has_uncertain_params == test.has_uncertain_params
        }),
{
    let plain = test_nodeid(module, test.class_name, test.name);
    let item = items_of(test, path, module)[k];
    if test.cases_expansion is Expanded {
        let id = test.cases_expansion->Expanded_0[k];
        assert(item.nodeid =~= plain + (seq!['['] + id + seq![']']));
    } else {
        assert(plain + Seq::<char>::empty() =~= plain);
    }
}

// ---------------------------------------------------------------------------------------------
// What is gathered
// ---------------------------------------------------------------------------------------------
/// The item stands in the tree, at most `depth` levels down.
pub open spec fn is_item_in(tree: CollectedView, item: NodeView, depth: nat) -> bool
    decreases depth,
{
    ||| tree.node == item && item.is_item
    ||| depth > 0 && !tree.node.is_item && tree.outcome is Ok && exists|k: int|
        0 <= k < tree.outcome->Ok_0.0.len() && is_item_in(
            #[trigger] tree.outcome->Ok_0.0[k],
            item,
            (depth - 1) as nat,
        )
}

proof fn lemma_prefix_holds<T>(a: Seq<T>, b: Seq<T>, x: T)
    requires
        a.is_prefix_of(b),
        a.contains(x),
    ensures
        b.contains(x),
{
    let k = choose|k: int| 0 <= k < a.len() && a[k] == x;
    assert(a =~= b.take(a.len() as int));
    assert(b.take(a.len() as int)[k] == b[k]);
}

proof fn lemma_prefix_of_prefix<T>(a: Seq<T>, b: Seq<T>, c: Seq<T>)
    requires
        a.is_prefix_of(b),
        b.is_prefix_of(c),
    ensures
        a.is_prefix_of(c),
{
    assert forall|x: int| 0 <= x < a.len() implies #[trigger] a[x] == c[x] by {
        assert(a =~= b.take(a.len() as int));
        assert(b =~= c.take(b.len() as int));
        assert(b.take(a.len() as int)[x] == b[x]);
        assert(c.take(b.len() as int)[x] == c[x]);
    }
    assert(a =~= c.take(a.len() as int));
}

proof fn lemma_gathered_grows(tree: CollectedView, done: GatheredView)
    ensures
        done.nodes.is_prefix_of(gathered(tree, done).nodes),
        done.errors.errors.is_prefix_of(gathered(tree, done).errors.errors),
        done.errors.warnings.is_prefix_of(gathered(tree, done).errors.warnings),
    decreases tree, 0int,
{
    let after = gathered(tree, done);
    assert(done.nodes =~= done.nodes.take(done.nodes.len() as int));
    assert(done.errors.errors =~= done.errors.errors.take(done.errors.errors.len() as int));
    assert(done.errors.warnings =~= done.errors.warnings.take(done.errors.warnings.len() as int));
    if tree.node.is_item {
        assert(done.nodes =~= after.nodes.take(done.nodes.len() as int));
    } else {
        match tree.outcome {
            Ok((children, warnings)) => {
                let next = GatheredView {
                    errors: ErrorsView {
                        warnings: done.errors.warnings + warnings,
                        ..done.errors
                    },
                    ..done
                };
                assert(decreases_to!(tree => tree.outcome));
                assert(decreases_to!(tree.outcome => tree.outcome->Ok_0));
                assert(decreases_to!(tree.outcome->Ok_0 => tree.outcome->Ok_0.0));
                lemma_gathered_from_grows(children, 0, next);
                assert(done.errors.warnings =~= next.errors.warnings.take(
                    done.errors.warnings.len() as int,
                ));
                lemma_prefix_of_prefix(
                    done.errors.warnings,
                    next.errors.warnings,
                    after.errors.warnings,
                );
            },
            Err(error) => {
                assert(done.errors.errors =~= after.errors.errors.take(
                    done.errors.errors.len() as int,
                ));
            },
        }
    }
}

proof fn lemma_gathered_from_grows(trees: Seq<CollectedView>, i: int, done: GatheredView)
    requires
        0 <= i,
    ensures
        done.nodes.is_prefix_of(gathered_from(trees, i, done).nodes),
        done.errors.errors.is_prefix_of(gathered_from(trees, i, done).errors.errors),
        done.errors.warnings.is_prefix_of(gathered_from(trees, i, done).errors.warnings),
    decreases trees, trees.len() - i,
{
    let after = gathered_from(trees, i, done);
    if i < trees.len() {
        assert(decreases_to!(trees => trees[i]));
        let next = gathered(trees[i], done);
        lemma_gathered_grows(trees[i], done);
        lemma_gathered_from_grows(trees, i + 1, next);
        lemma_prefix_of_prefix(done.nodes, next.nodes, after.nodes);
        lemma_prefix_of_prefix(done.errors.errors, next.errors.errors, after.errors.errors);
        lemma_prefix_of_prefix(done.errors.warnings, next.errors.warnings, after.errors.warnings);
    } else {
        assert(done.nodes =~= done.nodes.take(done.nodes.len() as int));
        assert(done.errors.errors =~= done.errors.errors.take(done.errors.errors.len() as int));
        assert(done.errors.warnings =~= done.errors.warnings.take(
            done.errors.warnings.len() as int,
        ));
    }
}

/// Every test item in a tree is gathered, under its node ID.
pub proof fn lemma_every_item_is_gathered(
    tree: CollectedView,
    done: GatheredView,
    item: NodeView,
    depth: nat,
)
    requires
        is_item_in(tree, item, depth),
    ensures
        gathered(tree, done).nodes.contains(item.nodeid),
    decreases depth, 0int,
{
    if tree.node == item && item.is_item {
        assert(gathered(tree, done).nodes.last() == item.nodeid);
    } else {
        let (children, warnings) = tree.outcome->Ok_0;
        let k = choose|k: int|
            0 <= k < tree.outcome->Ok_0.0.len() && is_item_in(
                #[trigger] tree.outcome->Ok_0.0[k],
                item,
                (depth - 1) as nat,
            );
        let next = GatheredView {
            errors: ErrorsView { warnings: done.errors.warnings + warnings, ..done.errors },
            ..done
        };
        lemma_every_item_is_gathered_from(children, 0, next, k, item, (depth - 1) as nat);
    }
}

/// Every test item in a list of trees is gathered, under its node ID.
pub proof fn lemma_every_item_is_gathered_from(
    trees: Seq<CollectedView>,
    i: int,
    done: GatheredView,
    k: int,
    item: NodeView,
    depth: nat,
)
    requires
        0 <= i <= k < trees.len(),
        is_item_in(trees[k], item, depth),
    ensures
        gathered_from(trees, i, done).nodes.contains(item.nodeid),
    decreases depth, 1int, k - i,
{
    let next = gathered(trees[i], done);
    if i < k {
        lemma_every_item_is_gathered_from(trees, i + 1, next, k, item, depth);
    } else {
        lemma_every_item_is_gathered(trees[k], done, item, depth);
        lemma_gathered_from_grows(trees, i + 1, next);
        lemma_prefix_holds(next.nodes, gathered_from(trees, i, done).nodes, item.nodeid);
    }
}

/// Of a list of items, the node IDs are gathered in order and nothing else; a node that could not
/// be collected is gathered as an error.
pub proof fn lemma_gathered_one_by_one(
    trees: Seq<CollectedView>,
    i: int,
    done: GatheredView,
)
    requires
        0 <= i <= trees.len(),
    ensures
        (forall|k: int| i <= k < trees.len() ==> (#[trigger] trees[k]).node.is_item)
            ==> gathered_from(trees, i, done) == (GatheredView {
            nodes: done.nodes + Seq::new(
                (trees.len() - i) as nat,
                |k: int| trees[i + k].node.nodeid,
            ),
            ..done
        }),
        (forall|k: int|
            i <= k < trees.len() ==> !(#[trigger] trees[k]).node.is_item && trees[k].outcome is Err)
            ==> gathered_from(trees, i, done) == (GatheredView {
            errors: ErrorsView {
                errors: done.errors.errors + Seq::new(
                    (trees.len() - i) as nat,
                    |k: int| (trees[i + k].node.nodeid, trees[i + k].outcome->Err_0),
                ),
                ..done.errors
            },
            ..done
        }),
    decreases trees.len() - i,
{
    let ids = Seq::new((trees.len() - i) as nat, |k: int| trees[i + k].node.nodeid);
    let failed = Seq::new(
        (trees.len() - i) as nat,
        |k: int| (trees[i + k].node.nodeid, trees[i + k].outcome->Err_0),
    );
    if i < trees.len() {
        let next = gathered(trees[i], done);
        lemma_gathered_one_by_one(trees, i + 1, next);
        let more = Seq::new((trees.len() - (i + 1)) as nat, |k: int| trees[i + 1 + k].node.nodeid);
        let more_failed = Seq::new(
            (trees.len() - (i + 1)) as nat,
            |k: int| (trees[i + 1 + k].node.nodeid, trees[i + 1 + k].outcome->Err_0),
        );
        assert(done.nodes.push(trees[i].node.nodeid) + more =~= done.nodes + ids);
        let error = (trees[i].node.nodeid, trees[i].outcome->Err_0);
        assert(done.errors.errors.push(error) + more_failed =~= done.errors.errors + failed);
    } else {
        assert(done.nodes + ids =~= done.nodes);
        assert(done.errors.errors + failed =~= done.errors.errors);
    }
}

// ---------------------------------------------------------------------------------------------
// Uncertain files
// ---------------------------------------------------------------------------------------------
proof fn lemma_uncertain_grows(tree: CollectedView, all: bool, done: Set<Seq<char>>)
    ensures
        done.subset_of(uncertain_in(tree, all, done)),
    decreases tree, 0int,
{
    if !tree.node.is_item {
        if let Ok((children, _)) = tree.outcome {
            assert(decreases_to!(tree => tree.outcome));
            assert(decreases_to!(tree.outcome => tree.outcome->Ok_0));
            assert(decreases_to!(tree.outcome->Ok_0 => tree.outcome->Ok_0.0));
            lemma_uncertain_from_grows(children, all, 0, done);
        }
    }
}

proof fn lemma_uncertain_from_grows(
    trees: Seq<CollectedView>,
    all: bool,
    i: int,
    done: Set<Seq<char>>,
)
    requires
        0 <= i,
    ensures
        done.subset_of(uncertain_from(trees, all, i, done)),
    decreases trees, trees.len() - i,
{
    if i < trees.len() {
        assert(decreases_to!(trees => trees[i]));
        lemma_uncertain_grows(trees[i], all, done);
        lemma_uncertain_from_grows(trees, all, i + 1, uncertain_in(trees[i], all, done));
    }
}

/// The file of a test with uncertain parameters is an uncertain file; so is that of any test with
/// parameters, where all such tests are taken to be uncertain.
pub proof fn lemma_uncertain_items_make_files_uncertain(
    tree: CollectedView,
    all: bool,
    done: Set<Seq<char>>,
    item: NodeView,
    depth: nat,
)
    requires
        is_item_in(tree, item, depth),
        item.has_uncertain_params || (all && item.is_parametrized),
    ensures
        uncertain_in(tree, all, done).contains(file_of(item.nodeid)),
    decreases depth, 0int,
{
    if !(tree.node == item && item.is_item) {
        let children = tree.outcome->Ok_0.0;
        let k = choose|k: int|
            0 <= k < tree.outcome->Ok_0.0.len() && is_item_in(
                #[trigger] tree.outcome->Ok_0.0[k],
                item,
                (depth - 1) as nat,
            );
        lemma_uncertain_among(children, all, 0, done, k, item, (depth - 1) as nat);
    }
}

proof fn lemma_uncertain_among(
    trees: Seq<CollectedView>,
    all: bool,
    i: int,
    done: Set<Seq<char>>,
    k: int,
    item: NodeView,
    depth: nat,
)
    requires
        0 <= i <= k < trees.len(),
        is_item_in(trees[k], item, depth),
        item.has_uncertain_params || (all && item.is_parametrized),
    ensures
        uncertain_from(trees, all, i, done).contains(file_of(item.nodeid)),
    decreases depth, 1int, k - i,
{
    let next = uncertain_in(trees[i], all, done);
    if i < k {
        lemma_uncertain_among(trees, all, i + 1, next, k, item, depth);
    } else {
        lemma_uncertain_items_make_files_uncertain(trees[k], all, done, item, depth);
        lemma_uncertain_from_grows(trees, all, i + 1, next);
    }
}

/// A tree in which no test is uncertain makes no file uncertain.
pub proof fn lemma_certain_items_change_nothing(
    trees: Seq<CollectedView>,
    all: bool,
    i: int,
    done: Set<Seq<char>>,
)
    requires
        0 <= i,
        forall|k: int|
            0 <= k < trees.len() ==> (#[trigger] trees[k]).node.is_item
                && !trees[k].node.has_uncertain_params && !(all && trees[k].node.is_parametrized),
    ensures
        uncertain_from(trees, all, i, done) == done,
    decreases trees.len() - i,
{
    if i < trees.len() {
        assert(trees[i].node.is_item);
        assert(uncertain_in(trees[i], all, done) == done);
        lemma_certain_items_change_nothing(trees, all, i + 1, done);
    }
}

/// The warnings of a node that was collected are gathered, in order, behind those before.
pub proof fn lemma_warnings_are_gathered(tree: CollectedView, done: GatheredView, k: int)
    requires
        !tree.node.is_item,
        tree.outcome is Ok,
        0 <= k < tree.outcome->Ok_0.1.len(),
    ensures
        ({
            let all = gathered(tree, done).errors.warnings;
            &&& all.len() > done.errors.warnings.len() + k
            &&& all[done.errors.warnings.len() + k] == tree.outcome->Ok_0.1[k]
        }),
{
    let (children, warnings) = tree.outcome->Ok_0;
    let next = GatheredView {
        errors: ErrorsView { warnings: done.errors.warnings + warnings, ..done.errors },
        ..done
    };
    lemma_gathered_from_grows(children, 0, next);
    let all = gathered(tree, done).errors.warnings;
    let n = next.errors.warnings.len() as int;
    assert(next.errors.warnings =~= all.take(n));
    assert(all.take(n)[done.errors.warnings.len() + k] == all[done.errors.warnings.len() + k]);
}

// ---------------------------------------------------------------------------------------------
// Directories
// ---------------------------------------------------------------------------------------------
/// Of the entries of a directory, those that can be read are taken, in order; those without
/// permission are passed over, and another failure is one of the directory.
pub proof fn lemma_entries_are_taken(
    entries: Seq<Result<PathInfo, IoFailure>>,
    i: int,
    done: Seq<PathView>,
)
    requires
        0 <= i < entries.len(),
    ensures
        entries[i] is Ok ==> readable_from(entries, i, done) == readable_from(
            entries,
            i + 1,
            done.push(entries[i]->Ok_0@),
        ),
        entries[i] is Err && entries[i]->Err_0.permission_denied ==> readable_from(entries, i, done)
            == readable_from(entries, i + 1, done),
        entries[i] is Err && !entries[i]->Err_0.permission_denied ==> readable_from(
            entries,
            i,
            done,
        ) == Err::<Seq<PathView>, Seq<char>>(entries[i]->Err_0.message@),
        readable_from(entries, entries.len() as int, done) == Ok::<Seq<PathView>, Seq<char>>(done),
{
}

/// Where all entries of a directory can be read, each is taken, in order.
pub proof fn lemma_all_entries_are_taken(
    entries: Seq<Result<PathInfo, IoFailure>>,
    i: int,
    done: Seq<PathView>,
)
    requires
        0 <= i <= entries.len(),
        forall|k: int| 0 <= k < entries.len() ==> (#[trigger] entries[k]) is Ok,
    ensures
        readable_from(entries, i, done) == Ok::<Seq<PathView>, Seq<char>>(
            done + Seq::new((entries.len() - i) as nat, |k: int| entries[i + k]->Ok_0@),
        ),
    decreases entries.len() - i,
{
    let rest = Seq::new((entries.len() - i) as nat, |k: int| entries[i + k]->Ok_0@);
    if i < entries.len() {
        assert(entries[i] is Ok);
        let next = done.push(entries[i]->Ok_0@);
        lemma_all_entries_are_taken(entries, i + 1, next);
        let more = Seq::new((entries.len() - (i + 1)) as nat, |k: int| entries[i + 1 + k]->Ok_0@);
        assert(next + more =~= done + rest);
    } else {
        assert(done + rest =~= done);
    }
}

// ---------------------------------------------------------------------------------------------
// Decorators in sources
// ---------------------------------------------------------------------------------------------
/// A source in which one of the ways to write the decorator stands holds it, and no other source.
pub proof fn lemma_parametrize_is_seen(before: Seq<char>, after: Seq<char>, source: Seq<char>)
    ensures
        has_parametrize(before + "@pytest.mark.parametrize"@ + after),
        has_parametrize(before + "@mark.parametrize"@ + after),
        has_parametrize(before + "@parametrize("@ + after),
        has_parametrize(source) ==> has_part(source, "@pytest.mark.parametrize"@) || has_part(
            source,
            "@mark.parametrize"@,
        ) || has_part(source, "@parametrize("@),
{
    lemma_part_of_sum(before, "@pytest.mark.parametrize"@, after);
    lemma_part_of_sum(before, "@mark.parametrize"@, after);
    lemma_part_of_sum(before, "@parametrize("@, after);
}

/// Tests of the files in a set are picked in order: of two lists, those of the one and then those
/// of the other; of a single test, that test where its file is in the set.
pub proof fn lemma_tests_are_picked(a: Seq<Seq<char>>, b: Seq<Seq<char>>, files: Set<Seq<char>>)
    ensures
        nodes_in(a + b, files) == nodes_in(a, files) + nodes_in(b, files),
        a.len() == 1 && files.contains(file_of(a[0])) ==> nodes_in(a, files) == a,
        a.len() == 1 && !files.contains(file_of(a[0])) ==> nodes_in(a, files).len() == 0,
    decreases b.len(),
{
    if a.len() == 1 {
        assert(a.drop_last() =~= Seq::<Seq<char>>::empty());
        assert(nodes_in(a.drop_last(), files) =~= Seq::<Seq<char>>::empty());
        assert(a.last() == a[0]);
        if files.contains(file_of(a[0])) {
            assert(nodes_in(a, files) =~= a);
        }
    }
    if b.len() == 0 {
        assert(a + b =~= a);
        assert(nodes_in(a, files) + nodes_in(b, files) =~= nodes_in(a, files));
    } else {
        lemma_tests_are_picked(a, b.drop_last(), files);
        assert((a + b).drop_last() =~= a + b.drop_last());
        assert((a + b).last() == b.last());
        assert(nodes_in(a + b, files) =~= nodes_in(a, files) + nodes_in(b, files));
    }
}

} // verus!
