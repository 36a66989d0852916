//! Visitor for discovering tests in a module, with inheritance inside the module.

use crate::python_discovery::cases::{combined_expansion, InfoView};
use crate::python_discovery::constant_resolver::{
    fresh_resolver, ConstantResolver, ResolverView,
};
use crate::python_discovery::constants::base_exprs;
use crate::python_discovery::decorators::{
    decorators_expansion, decorators_info, parse_decorators_for_cases,
    parse_decorators_to_specs,
};
use crate::python_discovery::discovery::{
    class_has_init, class_methods, collect_test_methods, has_init, inherited_from, make_test,
    method_views, methods_from, own_method_names, own_tests_from, push_inherited, push_own,
    test_function, test_names, test_of, test_views, ConfigView, MethodView, TestDiscoveryConfig,
    TestInfo, TestMethodInfo, TestView,
};
use crate::python_discovery::waiting::{
    lemma_decorators_are_final, lemma_rounds_are_final, stays_local,
};
use crate::python_discovery::syntax::{
    expr_views, stmt_views, ClassDef, ClassView, ExprView, FunctionDef, FunctionView, PyExpr,
    PyModule, PyStmt, StmtView,
};
use crate::strings::{copy, texts};
use crate::table::{entry, insert, keys, names, place_of, with_entry};
use vstd::prelude::*;

verus! {

/// Cached information about a test class.
#[derive(Debug)]
pub struct CachedClassInfo {
    pub methods: Vec<TestMethodInfo>,
    pub has_init: bool,
}

/// View of a [`CachedClassInfo`].
pub ghost struct CachedView {
    pub methods: Seq<MethodView>,
    pub has_init: bool,
}

impl CachedClassInfo {
    pub open spec fn view(&self) -> CachedView {
        CachedView { methods: method_views(self.methods@), has_init: self.has_init }
    }
}

pub open spec fn cache_views(list: Seq<(String, CachedClassInfo)>) -> Seq<
    (Seq<char>, CachedView),
> {
    Seq::new(list.len(), |i: int| (list[i].0@, list[i].1@))
}

/// The tests found so far, or a module that has to be loaded first.
pub type TestsView = Result<Seq<TestView>, Seq<Seq<char>>>;

pub open spec fn tests_view(r: Result<Vec<TestInfo>, Vec<String>>) -> TestsView {
    match r {
        Ok(tests) => Ok(test_views(tests@)),
        Err(module) => Err(texts(module@)),
    }
}

/// `done` with the test classes among the statements from `i` on.
pub open spec fn cache_from(
    config: ConfigView,
    resolver: Option<ResolverView>,
    stmts: Seq<StmtView>,
    i: int,
    done: Seq<(Seq<char>, CachedView)>,
) -> Result<Seq<(Seq<char>, CachedView)>, Seq<Seq<char>>>
    decreases stmts.len() - i,
{
    if i < 0 || i >= stmts.len() {
        Ok(done)
    } else {
        match stmts[i] {
            StmtView::ClassDef(class) => if config.is_test_class(class.name) {
                match class_methods(config, resolver, class) {
                    Err(module) => Err(module),
                    Ok(methods) => cache_from(
                        config,
                        resolver,
                        stmts,
                        i + 1,
                        with_entry(
                            done,
                            class.name,
                            CachedView { methods, has_init: has_init(class) },
                        ),
                    ),
                }
            } else {
                cache_from(config, resolver, stmts, i + 1, done)
            },
            _ => cache_from(config, resolver, stmts, i + 1, done),
        }
    }
}

/// The cached class that a base class expression names.
pub open spec fn named_base(cache: Seq<(Seq<char>, CachedView)>, e: ExprView) -> Option<
    CachedView,
> {
    match e {
        ExprView::Name(id) => entry(cache, id),
        _ => None,
    }
}

/// The class, or a cached base class of it, has a constructor.
pub open spec fn is_skipped_class(cache: Seq<(Seq<char>, CachedView)>, class: ClassView) -> bool {
    has_init(class) || exists|i: int|
        0 <= i < base_exprs(class).len() && (named_base(
            cache,
            #[trigger] base_exprs(class)[i],
        ) matches Some(parent) && parent.has_init)
}

/// `done` followed by the tests that a class inherits from the bases from `i` on.
pub open spec fn inherited_tests(
    cache: Seq<(Seq<char>, CachedView)>,
    bases: Seq<ExprView>,
    i: int,
    own: Seq<Seq<char>>,
    class_specs: InfoView,
    class: Seq<char>,
    done: Seq<TestView>,
) -> Seq<TestView>
    decreases bases.len() - i,
{
    if i < 0 || i >= bases.len() {
        done
    } else {
        let next = match named_base(cache, bases[i]) {
            Some(parent) => inherited_from(parent.methods, 0, own, class_specs, class, done),
            None => done,
        };
        inherited_tests(cache, bases, i + 1, own, class_specs, class, next)
    }
}

/// `done` followed by the tests of a class: first those it inherits, then its own.
pub open spec fn class_tests(
    config: ConfigView,
    resolver: Option<ResolverView>,
    cache: Seq<(Seq<char>, CachedView)>,
    class: ClassView,
    done: Seq<TestView>,
) -> TestsView {
    if !config.is_test_class(class.name) || is_skipped_class(cache, class) {
        Ok(done)
    } else {
        match decorators_info(class.decorators, resolver, Some(class.name)) {
            Err(module) => Err(module),
            Ok(class_specs) => own_tests_from(
                config,
                resolver,
                class.name,
                class_specs,
                class.body,
                0,
                inherited_tests(
                    cache,
                    base_exprs(class),
                    0,
                    test_names(config, class.body),
                    class_specs,
                    class.name,
                    done,
                ),
            ),
        }
    }
}

/// `done` followed by the test of a module-level function, if it is one.
pub open spec fn function_tests(
    config: ConfigView,
    resolver: Option<ResolverView>,
    func: FunctionView,
    done: Seq<TestView>,
) -> TestsView {
    if config.is_test_function(func.name) {
        match decorators_expansion(func.decorators, resolver, None) {
            Err(module) => Err(module),
            Ok(cases) => Ok(done.push(test_of(func.name, func.offset as nat, None, cases))),
        }
    } else {
        Ok(done)
    }
}

/// `done` followed by the tests of the statements from `i` on.
pub open spec fn stmt_tests(
    config: ConfigView,
    resolver: Option<ResolverView>,
    cache: Seq<(Seq<char>, CachedView)>,
    stmts: Seq<StmtView>,
    i: int,
    done: Seq<TestView>,
) -> TestsView
    decreases stmts.len() - i,
{
    if i < 0 || i >= stmts.len() {
        Ok(done)
    } else {
        let next = match stmts[i] {
            StmtView::FunctionDef(func) => function_tests(config, resolver, func, done),
            StmtView::ClassDef(class) => class_tests(config, resolver, cache, class, done),
            _ => Ok(done),
        };
        match next {
            Ok(more) => stmt_tests(config, resolver, cache, stmts, i + 1, more),
            Err(module) => Err(module),
        }
    }
}

/// The resolver with which a module is visited: it stays within the module.
pub open spec fn local_resolver(stmts: Seq<StmtView>) -> ResolverView {
    fresh_resolver(stmts, seq![], false).after_rounds().0
}

proof fn lemma_methods_are_final(
    config: ConfigView,
    resolver: Option<ResolverView>,
    class: Seq<char>,
    body: Seq<StmtView>,
    i: int,
    done: Seq<MethodView>,
)
    requires
        stays_local(resolver),
    ensures
        methods_from(config, resolver, class, body, i, done) is Ok,
    decreases body.len() - i,
{
    if 0 <= i < body.len() {
        match test_function(config, body[i]) {
            None => {
                lemma_methods_are_final(config, resolver, class, body, i + 1, done);
            },
            Some(func) => {
                lemma_decorators_are_final(func.decorators, resolver, Some(class));
                let method_specs = decorators_info(func.decorators, resolver, Some(class))->Ok_0;
                lemma_methods_are_final(
                    config,
                    resolver,
                    class,
                    body,
                    i + 1,
                    done.push(
                        MethodView { name: func.name, line: func.offset as nat, method_specs },
                    ),
                );
            },
        }
    }
}

proof fn lemma_own_tests_are_final(
    config: ConfigView,
    resolver: Option<ResolverView>,
    class: Seq<char>,
    class_specs: InfoView,
    body: Seq<StmtView>,
    i: int,
    done: Seq<TestView>,
)
    requires
        stays_local(resolver),
    ensures
        own_tests_from(config, resolver, class, class_specs, body, i, done) is Ok,
    decreases body.len() - i,
{
    if 0 <= i < body.len() {
        match test_function(config, body[i]) {
            None => {
                lemma_own_tests_are_final(config, resolver, class, class_specs, body, i + 1, done);
            },
            Some(func) => {
                lemma_decorators_are_final(func.decorators, resolver, Some(class));
                let specs = decorators_info(func.decorators, resolver, Some(class))->Ok_0;
                let test = test_of(
                    func.name,
                    func.offset as nat,
                    Some(class),
                    combined_expansion(class_specs, specs),
                );
                lemma_own_tests_are_final(
                    config,
                    resolver,
                    class,
                    class_specs,
                    body,
                    i + 1,
                    done.push(test),
                );
            },
        }
    }
}

proof fn lemma_cache_is_final(
    config: ConfigView,
    resolver: Option<ResolverView>,
    stmts: Seq<StmtView>,
    i: int,
    done: Seq<(Seq<char>, CachedView)>,
)
    requires
        stays_local(resolver),
    ensures
        cache_from(config, resolver, stmts, i, done) is Ok,
    decreases stmts.len() - i,
{
    if 0 <= i < stmts.len() {
        lemma_cache_is_final(config, resolver, stmts, i + 1, done);
        if let StmtView::ClassDef(class) = stmts[i] {
            lemma_methods_are_final(config, resolver, class.name, class.body, 0, seq![]);
            let methods = class_methods(config, resolver, class)->Ok_0;
            lemma_cache_is_final(
                config,
                resolver,
                stmts,
                i + 1,
                with_entry(done, class.name, CachedView { methods, has_init: has_init(class) }),
            );
        }
    }
}

proof fn lemma_tests_are_final(
    config: ConfigView,
    resolver: Option<ResolverView>,
    cache: Seq<(Seq<char>, CachedView)>,
    stmts: Seq<StmtView>,
    i: int,
    done: Seq<TestView>,
)
    requires
        stays_local(resolver),
    ensures
        stmt_tests(config, resolver, cache, stmts, i, done) is Ok,
    decreases stmts.len() - i,
{
    if 0 <= i < stmts.len() {
        let next = match stmts[i] {
            StmtView::FunctionDef(func) => {
                lemma_decorators_are_final(func.decorators, resolver, None);
                function_tests(config, resolver, func, done)
            },
            StmtView::ClassDef(class) => {
                lemma_decorators_are_final(class.decorators, resolver, Some(class.name));
                let specs = decorators_info(
                    class.decorators,
                    resolver,
                    Some(class.name),
                )->Ok_0;
                let inherited = inherited_tests(
                    cache,
                    base_exprs(class),
                    0,
                    test_names(config, class.body),
                    specs,
                    class.name,
                    done,
                );
                lemma_own_tests_are_final(
                    config,
                    resolver,
                    class.name,
                    specs,
                    class.body,
                    0,
                    inherited,
                );
                class_tests(config, resolver, cache, class, done)
            },
            _ => Ok(done),
        };
        assert(next is Ok);
        lemma_tests_are_final(config, resolver, cache, stmts, i + 1, next->Ok_0);
    }
}

/// Visitor to discover test functions and classes in a module
#[derive(Debug)]
pub struct TestDiscoveryVisitor {
    pub config: TestDiscoveryConfig,
    pub tests: Vec<TestInfo>,
    /// Maps class names to cached class info for inheritance resolution
    pub class_cache: Vec<(String, CachedClassInfo)>,
}

impl TestDiscoveryVisitor {
    pub fn new(config: &TestDiscoveryConfig) -> (r: Self)
        ensures
            r.config@ == config@,
            test_views(r.tests@) == Seq::<TestView>::empty(),
            cache_views(r.class_cache@) == Seq::<(Seq<char>, CachedView)>::empty(),
    {
        let r = TestDiscoveryVisitor {
            config: config.clone(),
            tests: Vec::new(),
            class_cache: Vec::new(),
        };
        assert(test_views(r.tests@) =~= Seq::<TestView>::empty());
        assert(cache_views(r.class_cache@) =~= Seq::<(Seq<char>, CachedView)>::empty());
        r
    }

    /// Adds the tests of a module.
    pub fn visit_module(&mut self, module: &PyModule)
        ensures
            final(self).config == old(self).config,
            ({
                let resolver = Some(local_resolver(module@));
                let config = old(self).config@;
                let cache = cache_from(
                    config,
                    resolver,
                    module@,
                    0,
                    cache_views(old(self).class_cache@),
                );
                let tests = stmt_tests(
                    config,
                    resolver,
                    cache->Ok_0,
                    module@,
                    0,
                    test_views(old(self).tests@),
                );
                &&& cache is Ok
                &&& tests is Ok
                &&& cache_views(final(self).class_cache@) == cache->Ok_0
                &&& test_views(final(self).tests@) == tests->Ok_0
            }),
    {
        let resolver = ConstantResolver::from_module(module);
        let ghost config = self.config@;
        let ghost known = Some(resolver@);
        let ghost old_cache = cache_views(self.class_cache@);
        let ghost old_tests = test_views(self.tests@);
        proof {
            lemma_rounds_are_final(fresh_resolver(module@, seq![], false));
            lemma_cache_is_final(config, known, module@, 0, old_cache);
            let cache = cache_from(config, known, module@, 0, old_cache)->Ok_0;
            lemma_tests_are_final(config, known, cache, module@, 0, old_tests);
        }
        // First pass: collect all test classes and their methods (specs only, not expanded)
        let mut cache: Vec<(String, CachedClassInfo)> = Vec::new();
        core::mem::swap(&mut cache, &mut self.class_cache);
        if let Ok(full) = collect_class_info(&self.config, module, &resolver, cache) {
            self.class_cache = full;
        }
        // Second pass: visit statements and handle inheritance
        let mut tests: Vec<TestInfo> = Vec::new();
        core::mem::swap(&mut tests, &mut self.tests);
        if let Ok(all) = visit_stmts(&self.config, module, &resolver, &self.class_cache, tests) {
            self.tests = all;
        }
    }

    /// The tests of the visited modules.
    pub fn into_tests(self) -> (r: Vec<TestInfo>)
        ensures
            r == self.tests,
    {
        self.tests
    }
}

/// First pass: collect class info with method-level specs for inheritance resolution
fn collect_class_info(
    config: &TestDiscoveryConfig,
    module: &PyModule,
    resolver: &ConstantResolver,
    cache: Vec<(String, CachedClassInfo)>,
) -> (r: Result<Vec<(String, CachedClassInfo)>, Vec<String>>)
    ensures
        match r {
            Ok(full) => cache_from(
                config@,
                Some(resolver@),
                module@,
                0,
                cache_views(cache@),
            ) == Ok::<Seq<(Seq<char>, CachedView)>, Seq<Seq<char>>>(cache_views(full@)),
            Err(needed) => cache_from(
                config@,
                Some(resolver@),
                module@,
                0,
                cache_views(cache@),
            ) == Err::<Seq<(Seq<char>, CachedView)>, Seq<Seq<char>>>(texts(needed@)),
        },
{
    let ghost stmts = module@;
    let ghost whole = cache_from(config@, Some(resolver@), stmts, 0, cache_views(cache@));
    let mut full = cache;
    let mut i: usize = 0;
    while i < module.body.len()
        invariant
            i <= module.body@.len(),
            stmts == stmt_views(module.body@),
            stmts == module@,
            whole == cache_from(config@, Some(resolver@), stmts, 0, cache_views(cache@)),
            whole == cache_from(config@, Some(resolver@), stmts, i as int, cache_views(full@)),
        decreases module.body@.len() - i,
    {
        assert(stmts[i as int] == module.body@[i as int]@);
        if let PyStmt::ClassDef(class) = &module.body[i] {
            if config.is_test_class(class.name.as_str()) {
                let methods = collect_test_methods(config, class, Some(resolver))?;
                let info = CachedClassInfo { methods, has_init: class_has_init(class) };
                let ghost before = full@;
                let ghost added = info@;
                assert(names(before) =~= keys(cache_views(before)));
                insert(&mut full, copy(class.name.as_str()), info);
                assert(cache_views(full@) =~= with_entry(
                    cache_views(before),
                    class.name@,
                    added,
                ));
            }
        }
        i = i + 1;
    }
    Ok(full)
}

/// The cached class that a base class expression names.
fn find_base<'a>(cache: &'a Vec<(String, CachedClassInfo)>, base: &PyExpr) -> (r: Option<
    &'a CachedClassInfo,
>)
    ensures
        match r {
            Some(info) => named_base(cache_views(cache@), base@) == Some(info@),
            None => named_base(cache_views(cache@), base@) is None,
        },
{
    match base {
        PyExpr::Name(id) => {
            assert(names(cache@) =~= keys(cache_views(cache@)));
            let at = place_of(cache.as_slice(), id.as_str());
            if at < cache.len() {
                Some(&cache[at].1)
            } else {
                None
            }
        },
        _ => None,
    }
}

/// Check if a class should be skipped (has __init__ or inherits from class with __init__)
fn should_skip_class(cache: &Vec<(String, CachedClassInfo)>, class: &ClassDef) -> (r: bool)
    ensures
        r == is_skipped_class(cache_views(cache@), class@),
{
    if class_has_init(class) {
        return true;
    }
    if let Some(bases) = &class.bases {
        let ghost views = expr_views(bases@);
        assert(views == base_exprs(class@));
        let mut i: usize = 0;
        while i < bases.len()
            invariant
                i <= bases@.len(),
                views == expr_views(bases@),
                views == base_exprs(class@),
                !has_init(class@),
                forall|j: int|
                    0 <= j < i ==> !(named_base(
                        cache_views(cache@),
                        #[trigger] views[j],
                    ) matches Some(parent) && parent.has_init),
            decreases bases@.len() - i,
        {
            assert(views[i as int] == bases@[i as int]@);
            if let Some(parent) = find_base(cache, &bases[i]) {
                if parent.has_init {
                    return true;
                }
            }
            i = i + 1;
        }
    }
    false
}

fn visit_class(
    config: &TestDiscoveryConfig,
    class: &ClassDef,
    resolver: &ConstantResolver,
    cache: &Vec<(String, CachedClassInfo)>,
    tests: Vec<TestInfo>,
) -> (r: Result<Vec<TestInfo>, Vec<String>>)
    ensures
        tests_view(r) == class_tests(
            config@,
            Some(resolver@),
            cache_views(cache@),
            class@,
            test_views(tests@),
        ),
{
    let class_name = class.name.as_str();
    if !config.is_test_class(class_name) {
        return Ok(tests);
    }
    if should_skip_class(cache, class) {
        return Ok(tests);
    }
    // Parse class-level decorators once
    let class_specs = parse_decorators_to_specs(
        class.decorators.as_slice(),
        Some(resolver),
        Some(class_name),
    )?;
    // Collect methods defined directly in this class (to filter inherited methods)
    let own = own_method_names(config, class);
    let mut list = tests;
    // First, collect inherited methods from base classes
    let ghost bases_view = base_exprs(class@);
    let ghost done = inherited_tests(
        cache_views(cache@),
        bases_view,
        0,
        texts(own@),
        class_specs@,
        class_name@,
        test_views(tests@),
    );
    if let Some(bases) = &class.bases {
        let mut i: usize = 0;
        while i < bases.len()
            invariant
                i <= bases@.len(),
                bases_view == expr_views(bases@),
                done == inherited_tests(
                    cache_views(cache@),
                    bases_view,
                    i as int,
                    texts(own@),
                    class_specs@,
                    class_name@,
                    test_views(list@),
                ),
            decreases bases@.len() - i,
        {
            assert(bases_view[i as int] == bases@[i as int]@);
            if let Some(parent) = find_base(cache, &bases[i]) {
                push_inherited(
                    &mut list,
                    parent.methods.as_slice(),
                    own.as_slice(),
                    &class_specs,
                    class_name,
                );
            }
            i = i + 1;
        }
    }
    assert(test_views(list@) == done);
    // Then collect methods defined directly in this class
    push_own(list, config, class, &class_specs, Some(resolver))
}

fn visit_function(
    config: &TestDiscoveryConfig,
    func: &FunctionDef,
    resolver: &ConstantResolver,
    tests: Vec<TestInfo>,
) -> (r: Result<Vec<TestInfo>, Vec<String>>)
    ensures
        tests_view(r) == function_tests(config@, Some(resolver@), func@, test_views(tests@)),
{
    let mut list = tests;
    if config.is_test_function(func.name.as_str()) {
        let cases = parse_decorators_for_cases(func.decorators.as_slice(), Some(resolver), None)?;
        let test = make_test(func.name.as_str(), func.offset as usize, None, cases);
        let ghost added = test@;
        list.push(test);
        assert(test_views(list@) =~= test_views(tests@).push(added));
    }
    Ok(list)
}

fn visit_stmts(
    config: &TestDiscoveryConfig,
    module: &PyModule,
    resolver: &ConstantResolver,
    cache: &Vec<(String, CachedClassInfo)>,
    tests: Vec<TestInfo>,
) -> (r: Result<Vec<TestInfo>, Vec<String>>)
    ensures
        tests_view(r) == stmt_tests(
            config@,
            Some(resolver@),
            cache_views(cache@),
            module@,
            0,
            test_views(tests@),
        ),
{
    let ghost stmts = module@;
    let ghost whole = stmt_tests(
        config@,
        Some(resolver@),
        cache_views(cache@),
        stmts,
        0,
        test_views(tests@),
    );
    let mut list = tests;
    let mut i: usize = 0;
    while i < module.body.len()
        invariant
            i <= module.body@.len(),
            stmts == stmt_views(module.body@),
            stmts == module@,
            whole == stmt_tests(
                config@,
                Some(resolver@),
                cache_views(cache@),
                stmts,
                0,
                test_views(tests@),
            ),
            whole == stmt_tests(
                config@,
                Some(resolver@),
                cache_views(cache@),
                stmts,
                i as int,
                test_views(list@),
            ),
        decreases module.body@.len() - i,
    {
        assert(stmts[i as int] == module.body@[i as int]@);
        match &module.body[i] {
            PyStmt::FunctionDef(func) => {
                list = visit_function(config, func, resolver, list)?;
            },
            PyStmt::ClassDef(class) => {
                list = visit_class(config, class, resolver, cache, list)?;
            },
            _ => {},
        }
        i = i + 1;
    }
    Ok(list)
}

} // verus!
