//! What holds of the tests that the visitor of a single module finds.

use crate::python_discovery::ancestry_laws::{
    defines_function, has_named, has_test, is_class, is_last_class, lemma_constructor,
    lemma_inherited_from_has, lemma_methods, lemma_own_names, lemma_own_tests_have, lemma_prefixes,
    lemma_test_is_kept, without_constructors,
};
use crate::python_discovery::cases::InfoView;
use crate::python_discovery::constant_resolver::ResolverView;
use crate::python_discovery::constants::base_exprs;
use crate::python_discovery::decorators::decorators_info;
use crate::python_discovery::discovery::{
    class_methods, has_init, inherited_from, test_names, ConfigView, TestView,
};
use crate::python_discovery::syntax::{ClassView, ExprView, StmtView};
use crate::python_discovery::visitor::{
    cache_from, class_tests, function_tests, inherited_tests, is_skipped_class, named_base,
    stmt_tests, CachedView,
};
use crate::table::{entry, lemma_entry_after_insert, with_entry};
use vstd::prelude::*;

verus! {

/// A test of that name at the top of a module is among the tests.
pub open spec fn has_function(tests: Seq<TestView>, name: Seq<char>) -> bool {
    exists|x: int|
        0 <= x < tests.len() && (#[trigger] tests[x]).name == name && tests[x].class_name is None
            && !tests[x].is_method
}

proof fn lemma_function_is_kept(before: Seq<TestView>, after: Seq<TestView>, name: Seq<char>)
    requires
        has_function(before, name),
        before.is_prefix_of(after),
    ensures
        has_function(after, name),
{
    let x = choose|x: int|
        0 <= x < before.len() && (#[trigger] before[x]).name == name && before[x].class_name is None
            && !before[x].is_method;
    assert(before =~= after.take(before.len() as int));
    assert(after.take(before.len() as int)[x] == after[x]);
    assert(after[x].name == name);
}

// ---------------------------------------------------------------------------------------------
// The classes of a module
// ---------------------------------------------------------------------------------------------
proof fn lemma_cached(
    config: ConfigView,
    resolver: Option<ResolverView>,
    stmts: Seq<StmtView>,
    i: int,
    done: Seq<(Seq<char>, CachedView)>,
    j: int,
    name: Seq<char>,
)
    requires
        0 <= i,
        config.is_test_class(name),
        forall|m: int| i <= m < stmts.len() && m > j ==> !is_class(#[trigger] stmts[m], name),
        i <= j ==> j < stmts.len() && is_class(stmts[j], name),
    ensures
        cache_from(config, resolver, stmts, i, done) matches Ok(cache) ==> if i <= j {
            let class = stmts[j]->ClassDef_0;
            &&& class_methods(config, resolver, class) is Ok
            &&& entry(cache, name) == Some(
                CachedView {
                    methods: class_methods(config, resolver, class)->Ok_0,
                    has_init: has_init(class),
                },
            )
        } else {
            entry(cache, name) == entry(done, name)
        },
    decreases stmts.len() - i,
{
    if i < stmts.len() {
        if i > j {
            assert(!is_class(stmts[i], name));
        }
        match stmts[i] {
            StmtView::ClassDef(class) if config.is_test_class(class.name) => {
                if let Ok(methods) = class_methods(config, resolver, class) {
                    let info = CachedView { methods, has_init: has_init(class) };
                    lemma_entry_after_insert(done, class.name, info, name);
                    lemma_cached(
                        config,
                        resolver,
                        stmts,
                        i + 1,
                        with_entry(done, class.name, info),
                        j,
                        name,
                    );
                }
            },
            _ => {
                lemma_cached(config, resolver, stmts, i + 1, done, j, name);
            },
        }
    }
}

proof fn lemma_cached_plain(
    config: ConfigView,
    resolver: Option<ResolverView>,
    stmts: Seq<StmtView>,
    i: int,
    done: Seq<(Seq<char>, CachedView)>,
    name: Seq<char>,
)
    requires
        0 <= i,
        without_constructors(stmts),
        entry(done, name) matches Some(info) ==> !info.has_init,
    ensures
        cache_from(config, resolver, stmts, i, done) matches Ok(cache) ==> (entry(
            cache,
            name,
        ) matches Some(info) ==> !info.has_init),
    decreases stmts.len() - i,
{
    if i < stmts.len() {
        match stmts[i] {
            StmtView::ClassDef(class) if config.is_test_class(class.name) => {
                assert(stmts[i] is ClassDef);
                lemma_constructor(class);
                if let Ok(methods) = class_methods(config, resolver, class) {
                    let info = CachedView { methods, has_init: has_init(class) };
                    lemma_entry_after_insert(done, class.name, info, name);
                    lemma_cached_plain(
                        config,
                        resolver,
                        stmts,
                        i + 1,
                        with_entry(done, class.name, info),
                        name,
                    );
                }
            },
            _ => {
                lemma_cached_plain(config, resolver, stmts, i + 1, done, name);
            },
        }
    }
}

// ---------------------------------------------------------------------------------------------
// Tests
// ---------------------------------------------------------------------------------------------
proof fn lemma_inherited_tests(
    cache: Seq<(Seq<char>, CachedView)>,
    bases: Seq<ExprView>,
    i: int,
    own: Seq<Seq<char>>,
    specs: InfoView,
    class: Seq<char>,
    done: Seq<TestView>,
    b: int,
    name: Seq<char>,
)
    requires
        0 <= i,
    ensures
        done.is_prefix_of(inherited_tests(cache, bases, i, own, specs, class, done)),
        i <= b < bases.len() && named_base(cache, bases[b]) is Some && has_named(
            named_base(cache, bases[b])->0.methods,
            name,
        ) && !own.contains(name) ==> has_test(
            inherited_tests(cache, bases, i, own, specs, class, done),
            class,
            name,
        ),
    decreases bases.len() - i,
{
    let all = inherited_tests(cache, bases, i, own, specs, class, done);
    assert(done =~= done.take(done.len() as int));
    if i < bases.len() {
        let next = match named_base(cache, bases[i]) {
            Some(parent) => inherited_from(parent.methods, 0, own, specs, class, done),
            None => done,
        };
        if let Some(parent) = named_base(cache, bases[i]) {
            lemma_inherited_from_has(parent.methods, 0, own, specs, class, done, name);
        }
        lemma_inherited_tests(cache, bases, i + 1, own, specs, class, next, b, name);
        lemma_prefixes(done, next, all);
        if i == b && named_base(cache, bases[b]) is Some && has_named(
            named_base(cache, bases[b])->0.methods,
            name,
        ) && !own.contains(name) {
            let methods = named_base(cache, bases[b])->0.methods;
            let x = choose|x: int| 0 <= x < methods.len() && (#[trigger] methods[x]).name == name;
            assert(methods[x].name == name);
            assert(has_test(next, class, name));
            lemma_test_is_kept(next, all, class, name);
        }
    }
}

proof fn lemma_class_tests(
    config: ConfigView,
    resolver: Option<ResolverView>,
    cache: Seq<(Seq<char>, CachedView)>,
    class: ClassView,
    done: Seq<TestView>,
    b: int,
    name: Seq<char>,
)
    ensures
        class_tests(config, resolver, cache, class, done) matches Ok(all) ==> {
            &&& done.is_prefix_of(all)
            &&& config.is_test_class(class.name) && !is_skipped_class(cache, class)
                && config.is_test_function(name) && {
                ||| defines_function(class.body, name)
                ||| 0 <= b < base_exprs(class).len() && named_base(
                    cache,
                    base_exprs(class)[b],
                ) is Some && has_named(named_base(cache, base_exprs(class)[b])->0.methods, name)
            } ==> has_test(all, class.name, name)
        },
{
    assert(done =~= done.take(done.len() as int));
    if config.is_test_class(class.name) && !is_skipped_class(cache, class) {
        if let Ok(specs) = decorators_info(class.decorators, resolver, Some(class.name)) {
            let own = test_names(config, class.body);
            let bases = base_exprs(class);
            let first = inherited_tests(cache, bases, 0, own, specs, class.name, done);
            lemma_inherited_tests(cache, bases, 0, own, specs, class.name, done, b, name);
            lemma_own_tests_have(
                config,
                resolver,
                class.name,
                specs,
                class.body,
                0,
                first,
                name,
            );
            lemma_own_names(config, class.body, name);
            if let Ok(all) = class_tests(config, resolver, cache, class, done) {
                lemma_prefixes(done, first, all);
                if defines_function(class.body, name) {
                    let k = choose|k: int|
                        0 <= k < class.body.len() && (#[trigger] class.body[k]) is FunctionDef
                            && class.body[k]->FunctionDef_0.name == name;
                    assert(class.body[k] is FunctionDef);
                } else if has_test(first, class.name, name) {
                    lemma_test_is_kept(first, all, class.name, name);
                }
            }
        }
    }
}

proof fn lemma_stmt_tests(
    config: ConfigView,
    resolver: Option<ResolverView>,
    cache: Seq<(Seq<char>, CachedView)>,
    stmts: Seq<StmtView>,
    i: int,
    done: Seq<TestView>,
    j: int,
    b: int,
    name: Seq<char>,
)
    requires
        0 <= i,
    ensures
        stmt_tests(config, resolver, cache, stmts, i, done) matches Ok(all) ==> {
            &&& done.is_prefix_of(all)
            &&& i <= j < stmts.len() && stmts[j] is FunctionDef && stmts[j]->FunctionDef_0.name
                == name && config.is_test_function(name) ==> has_function(all, name)
            &&& i <= j < stmts.len() && stmts[j] is ClassDef && ({
                let class = stmts[j]->ClassDef_0;
                &&& config.is_test_class(class.name) && !is_skipped_class(cache, class)
                &&& config.is_test_function(name)
                &&& {
                    ||| defines_function(class.body, name)
                    ||| 0 <= b < base_exprs(class).len() && named_base(
                        cache,
                        base_exprs(class)[b],
                    ) is Some && has_named(
                        named_base(cache, base_exprs(class)[b])->0.methods,
                        name,
                    )
                }
            }) ==> has_test(all, stmts[j]->ClassDef_0.name, name)
        },
    decreases stmts.len() - i,
{
    assert(done =~= done.take(done.len() as int));
    if i < stmts.len() {
        if let Ok(all) = stmt_tests(config, resolver, cache, stmts, i, done) {
            match stmts[i] {
                StmtView::FunctionDef(func) => {
                    let next = function_tests(config, resolver, func, done)->Ok_0;
                    assert(done =~= next.take(done.len() as int));
                    lemma_stmt_tests(config, resolver, cache, stmts, i + 1, next, j, b, name);
                    lemma_prefixes(done, next, all);
                    if i == j && func.name == name && config.is_test_function(name) {
                        assert(next[done.len() as int].name == name);
                        assert(has_function(next, name));
                        lemma_function_is_kept(next, all, name);
                    }
                },
                StmtView::ClassDef(class) => {
                    let next = class_tests(config, resolver, cache, class, done)->Ok_0;
                    lemma_class_tests(config, resolver, cache, class, done, b, name);
                    lemma_stmt_tests(config, resolver, cache, stmts, i + 1, next, j, b, name);
                    lemma_prefixes(done, next, all);
                    if i == j && has_test(next, class.name, name) {
                        lemma_test_is_kept(next, all, class.name, name);
                    }
                },
                _ => {
                    lemma_stmt_tests(config, resolver, cache, stmts, i + 1, done, j, b, name);
                },
            }
        }
    }
}

/// The tests that the visitor finds in a module.
pub open spec fn is_visited(
    config: ConfigView,
    resolver: Option<ResolverView>,
    stmts: Seq<StmtView>,
    tests: Seq<TestView>,
) -> bool {
    cache_from(config, resolver, stmts, 0, seq![]) matches Ok(cache) && stmt_tests(
        config,
        resolver,
        cache,
        stmts,
        0,
        seq![],
    ) == Ok::<Seq<TestView>, Seq<Seq<char>>>(tests)
}

/// Each test function at the top of a module is found.
pub proof fn lemma_visitor_finds_functions(
    config: ConfigView,
    resolver: Option<ResolverView>,
    stmts: Seq<StmtView>,
    tests: Seq<TestView>,
    j: int,
)
    requires
        is_visited(config, resolver, stmts, tests),
        0 <= j < stmts.len(),
        stmts[j] is FunctionDef,
        config.is_test_function(stmts[j]->FunctionDef_0.name),
    ensures
        has_function(tests, stmts[j]->FunctionDef_0.name),
{
    let cache = cache_from(config, resolver, stmts, 0, seq![])->Ok_0;
    lemma_stmt_tests(
        config,
        resolver,
        cache,
        stmts,
        0,
        seq![],
        j,
        0,
        stmts[j]->FunctionDef_0.name,
    );
}

/// A test class has the tests that it defines, and those of each test class of the module that it
/// names as a base, where no class has a constructor.
pub proof fn lemma_visitor_finds_methods(
    config: ConfigView,
    resolver: Option<ResolverView>,
    stmts: Seq<StmtView>,
    tests: Seq<TestView>,
    j: int,
    b: int,
    base_at: int,
    name: Seq<char>,
)
    requires
        is_visited(config, resolver, stmts, tests),
        without_constructors(stmts),
        0 <= j < stmts.len(),
        stmts[j] is ClassDef,
        config.is_test_class(stmts[j]->ClassDef_0.name),
        config.is_test_function(name),
        ({
            let class = stmts[j]->ClassDef_0;
            ||| defines_function(class.body, name)
            ||| {
                &&& class.bases is Some
                &&& 0 <= b < class.bases->0.len()
                &&& class.bases->0[b] is Name
                &&& config.is_test_class(class.bases->0[b]->Name_0)
                &&& is_last_class(stmts, base_at, class.bases->0[b]->Name_0)
                &&& defines_function(stmts[base_at]->ClassDef_0.body, name)
            }
        }),
    ensures
        has_test(tests, stmts[j]->ClassDef_0.name, name),
{
    let cache = cache_from(config, resolver, stmts, 0, seq![])->Ok_0;
    let class = stmts[j]->ClassDef_0;
    let bases = base_exprs(class);
    assert(stmts[j] is ClassDef);
    lemma_constructor(class);
    assert(!is_skipped_class(cache, class)) by {
        if is_skipped_class(cache, class) {
            let i = choose|i: int|
                0 <= i < base_exprs(class).len() && (named_base(
                    cache,
                    #[trigger] base_exprs(class)[i],
                ) matches Some(parent) && parent.has_init);
            lemma_cached_plain(config, resolver, stmts, 0, seq![], bases[i]->Name_0);
        }
    }
    if !defines_function(class.body, name) {
        let base = bases[b]->Name_0;
        let parent = stmts[base_at]->ClassDef_0;
        lemma_cached(config, resolver, stmts, 0, seq![], base_at, base);
        lemma_methods(config, resolver, parent.name, parent.body, 0, seq![], name);
        let k = choose|k: int|
            0 <= k < parent.body.len() && (#[trigger] parent.body[k]) is FunctionDef
                && parent.body[k]->FunctionDef_0.name == name;
        assert(parent.body[k] is FunctionDef);
    }
    lemma_stmt_tests(config, resolver, cache, stmts, 0, seq![], j, b, name);
}

} // verus!
