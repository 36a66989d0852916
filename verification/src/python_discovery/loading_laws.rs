//! Discovery asks for a module once: what has been loaded is not asked for again, so that loading
//! and repeating comes to an end.

use crate::collection::error::ErrorView;
use crate::python_discovery::cases::{combined_expansion, InfoView};
use crate::python_discovery::constant_resolver::{
    fresh_resolver, known_from, BindingView, KnownView, ModuleView, ResolverView,
};
use crate::python_discovery::constants::base_exprs;
use crate::python_discovery::decorators::{decorators_expansion, decorators_info};
use crate::python_discovery::discovery::{
    inherited_from, methods_from, own_tests_from, test_function, test_names, test_of, ConfigView,
    MethodView, TestView,
};
use crate::python_discovery::module_resolver::{load_from, LoadView};
use crate::python_discovery::semantic_analyzer::{
    base_of, class_info, class_infos_from, constants_of, imports_from, loaded_from, prepared,
    BaseView, ClassInfoView, ClassKey, DiscoveryView, PassView, ProgressView, StopView, TablesView,
    TargetView,
};
use crate::python_discovery::syntax::{ClassView, ExprView, StmtView};
use crate::python_discovery::visitor::local_resolver;
use crate::python_discovery::waiting::{
    asks_for, is_settled_info, lemma_decorators_are_settled, lemma_known_by_paths,
    lemma_rounds_are_final, lemma_rounds_are_settled, same_paths,
};
use vstd::prelude::*;

verus! {

// ---------------------------------------------------------------------------------------------
// What a pass stops for
// ---------------------------------------------------------------------------------------------
/// Where a pass stops for a module, that module has not been loaded, or the resolver asks for it.
pub open spec fn is_settled_stop(
    loads: Seq<LoadView>,
    resolver: Option<ResolverView>,
    stop: StopView,
) -> bool {
    match stop {
        StopView::Error(_) => true,
        StopView::Classes(path) => load_from(loads, path, 0) is None,
        StopView::Constants(path) => resolver is Some && asks_for(resolver->0, path),
    }
}

proof fn lemma_methods(
    config: ConfigView,
    resolver: Option<ResolverView>,
    class: Seq<char>,
    body: Seq<StmtView>,
    i: int,
    done: Seq<MethodView>,
)
    ensures
        is_settled_info(resolver, methods_from(config, resolver, class, body, i, done)),
    decreases body.len() - i,
{
    if 0 <= i < body.len() {
        match test_function(config, body[i]) {
            None => {
                lemma_methods(config, resolver, class, body, i + 1, done);
            },
            Some(func) => {
                lemma_decorators_are_settled(func.decorators, resolver, Some(class));
                if let Ok(method_specs) = decorators_info(
                    func.decorators,
                    resolver,
                    Some(class),
                ) {
                    let method = MethodView {
                        name: func.name,
                        line: func.offset as nat,
                        method_specs,
                    };
                    lemma_methods(config, resolver, class, body, i + 1, done.push(method));
                }
            },
        }
    }
}

proof fn lemma_class_infos(
    loads: Seq<LoadView>,
    config: ConfigView,
    resolver: Option<ResolverView>,
    tests_only: bool,
    stmts: Seq<StmtView>,
    i: int,
    current: Seq<Seq<char>>,
    imports: Seq<(Seq<char>, BindingView)>,
    done: Seq<ClassInfoView>,
)
    ensures
        class_infos_from(config, resolver, tests_only, stmts, i, current, imports, done) matches Err(
            stop,
        ) ==> is_settled_stop(loads, resolver, stop),
    decreases stmts.len() - i,
{
    if 0 <= i < stmts.len() {
        lemma_class_infos(
            loads,
            config,
            resolver,
            tests_only,
            stmts,
            i + 1,
            current,
            imports,
            done,
        );
        if let StmtView::ClassDef(class) = stmts[i] {
            lemma_methods(config, resolver, class.name, class.body, 0, seq![]);
            lemma_decorators_are_settled(class.decorators, resolver, Some(class.name));
            if let Ok(info) = class_info(config, resolver, class, current, imports) {
                lemma_class_infos(
                    loads,
                    config,
                    resolver,
                    tests_only,
                    stmts,
                    i + 1,
                    current,
                    imports,
                    done.push(info),
                );
            }
        }
    }
}

proof fn lemma_ensure(pass: PassView, tables: TablesView, path: Seq<Seq<char>>)
    ensures
        pass.ensure(tables, path) matches Err(stop) ==> is_settled_stop(pass.loads, None, stop),
{
    if let Some(Ok(stmts)) = load_from(pass.loads, path, 0) {
        let resolver = local_resolver(stmts);
        lemma_rounds_are_final(fresh_resolver(stmts, seq![], false));
        lemma_class_infos(
            pass.loads,
            pass.config,
            Some(resolver),
            false,
            stmts,
            0,
            path,
            imports_from(stmts, 0, seq![]),
            seq![],
        );
    }
}

proof fn lemma_base_has_init(
    pass: PassView,
    tables: TablesView,
    base: BaseView,
    visited: Seq<ClassKey>,
    fuel: nat,
)
    ensures
        pass.base_has_init(tables, base, visited, fuel) matches Err(stop) ==> is_settled_stop(
            pass.loads,
            None,
            stop,
        ),
    decreases fuel, 0int, 0int,
{
    let key = (base.mod_path, base.class_name);
    if fuel > 0 {
        lemma_ensure(pass, tables, base.mod_path);
        if let Ok(now) = pass.entered(tables, base) {
            if let Some(info) = now.class(base.mod_path, base.class_name) {
                lemma_any_has_init(
                    pass,
                    now,
                    info.base_classes,
                    0,
                    visited.push(key),
                    (fuel - 1) as nat,
                );
            }
        }
    }
}

proof fn lemma_any_has_init(
    pass: PassView,
    tables: TablesView,
    bases: Seq<BaseView>,
    i: int,
    visited: Seq<ClassKey>,
    fuel: nat,
)
    ensures
        pass.any_has_init(tables, bases, i, visited, fuel) matches Err(stop) ==> is_settled_stop(
            pass.loads,
            None,
            stop,
        ),
    decreases fuel, 1int, bases.len() - i,
{
    if 0 <= i < bases.len() {
        lemma_base_has_init(pass, tables, bases[i], visited, fuel);
        if let Ok((now, false)) = pass.base_has_init(tables, bases[i], visited, fuel) {
            lemma_any_has_init(pass, now, bases, i + 1, visited, fuel);
        }
    }
}

proof fn lemma_base_methods(
    pass: PassView,
    tables: TablesView,
    base: BaseView,
    visited: Seq<ClassKey>,
    fuel: nat,
)
    ensures
        pass.base_methods(tables, base, visited, fuel) matches Err(stop) ==> is_settled_stop(
            pass.loads,
            None,
            stop,
        ),
    decreases fuel, 0int, 0int,
{
    let key = (base.mod_path, base.class_name);
    if fuel > 0 {
        lemma_ensure(pass, tables, base.mod_path);
        if let Ok(now) = pass.entered(tables, base) {
            if let Some(info) = now.class(base.mod_path, base.class_name) {
                lemma_all_methods(
                    pass,
                    now,
                    info.base_classes,
                    0,
                    visited.push(key),
                    seq![],
                    (fuel - 1) as nat,
                );
            }
        }
    }
}

proof fn lemma_all_methods(
    pass: PassView,
    tables: TablesView,
    bases: Seq<BaseView>,
    i: int,
    visited: Seq<ClassKey>,
    done: Seq<MethodView>,
    fuel: nat,
)
    ensures
        pass.all_methods(tables, bases, i, visited, done, fuel) matches Err(stop)
            ==> is_settled_stop(pass.loads, None, stop),
    decreases fuel, 1int, bases.len() - i,
{
    if 0 <= i < bases.len() {
        lemma_base_methods(pass, tables, bases[i], visited, fuel);
        if let Ok((now, found)) = pass.base_methods(tables, bases[i], visited, fuel) {
            match found {
                Some(methods) => {
                    lemma_all_methods(pass, now, bases, i + 1, visited, done + methods, fuel);
                },
                None => {
                    lemma_all_methods(pass, now, bases, i + 1, visited, done, fuel);
                },
            }
        }
    }
}

proof fn lemma_bases_have_init(
    pass: PassView,
    target: TargetView,
    tables: TablesView,
    bases: Seq<ExprView>,
    i: int,
)
    ensures
        pass.bases_have_init(target, tables, bases, i) matches Err(stop) ==> is_settled_stop(
            pass.loads,
            None,
            stop,
        ),
    decreases bases.len() - i,
{
    if 0 <= i < bases.len() {
        match base_of(bases[i], target.path, target.imports) {
            Err(_) => {},
            Ok(None) => {
                lemma_bases_have_init(pass, target, tables, bases, i + 1);
            },
            Ok(Some(base)) => {
                let levels = pass.levels(tables);
                lemma_base_has_init(pass, tables, base, seq![], levels);
                if let Ok((now, false)) = pass.base_has_init(tables, base, seq![], levels) {
                    lemma_bases_have_init(pass, target, now, bases, i + 1);
                }
            },
        }
    }
}

proof fn lemma_inherited(
    pass: PassView,
    target: TargetView,
    tables: TablesView,
    bases: Seq<ExprView>,
    i: int,
    own: Seq<Seq<char>>,
    class_specs: InfoView,
    class: Seq<char>,
    done: Seq<TestView>,
)
    ensures
        pass.inherited(target, tables, bases, i, own, class_specs, class, done) matches Err(stop)
            ==> is_settled_stop(pass.loads, None, stop),
    decreases bases.len() - i,
{
    if 0 <= i < bases.len() {
        match base_of(bases[i], target.path, target.imports) {
            Err(_) => {},
            Ok(None) => {
                lemma_inherited(
                    pass,
                    target,
                    tables,
                    bases,
                    i + 1,
                    own,
                    class_specs,
                    class,
                    done,
                );
            },
            Ok(Some(base)) => {
                let levels = pass.levels(tables);
                lemma_base_methods(pass, tables, base, seq![], levels);
                if let Ok((now, found)) = pass.base_methods(tables, base, seq![], levels) {
                    let next = match found {
                        Some(methods) => inherited_from(methods, 0, own, class_specs, class, done),
                        None => done,
                    };
                    lemma_inherited(
                        pass,
                        target,
                        now,
                        bases,
                        i + 1,
                        own,
                        class_specs,
                        class,
                        next,
                    );
                }
            },
        }
    }
}

proof fn lemma_own_tests(
    config: ConfigView,
    resolver: Option<ResolverView>,
    class: Seq<char>,
    class_specs: InfoView,
    body: Seq<StmtView>,
    i: int,
    done: Seq<TestView>,
)
    ensures
        is_settled_info(
            resolver,
            own_tests_from(config, resolver, class, class_specs, body, i, done),
        ),
    decreases body.len() - i,
{
    if 0 <= i < body.len() {
        match test_function(config, body[i]) {
            None => {
                lemma_own_tests(config, resolver, class, class_specs, body, i + 1, done);
            },
            Some(func) => {
                lemma_decorators_are_settled(func.decorators, resolver, Some(class));
                if let Ok(method_specs) = decorators_info(
                    func.decorators,
                    resolver,
                    Some(class),
                ) {
                    let test = test_of(
                        func.name,
                        func.offset as nat,
                        Some(class),
                        combined_expansion(class_specs, method_specs),
                    );
                    lemma_own_tests(
                        config,
                        resolver,
                        class,
                        class_specs,
                        body,
                        i + 1,
                        done.push(test),
                    );
                }
            },
        }
    }
}

proof fn lemma_after_class(
    pass: PassView,
    target: TargetView,
    progress: ProgressView,
    class: ClassView,
)
    ensures
        pass.after_class(target, progress, class) matches Err(stop) ==> is_settled_stop(
            pass.loads,
            Some(target.resolver),
            stop,
        ),
{
    let resolver = Some(target.resolver);
    lemma_bases_have_init(pass, target, progress.tables, base_exprs(class), 0);
    lemma_decorators_are_settled(class.decorators, resolver, Some(class.name));
    if let Ok((tables, false)) = pass.skips(target, progress.tables, class) {
        if let Ok(class_specs) = decorators_info(class.decorators, resolver, Some(class.name)) {
            let own = test_names(pass.config, class.body);
            lemma_inherited(
                pass,
                target,
                tables,
                base_exprs(class),
                0,
                own,
                class_specs,
                class.name,
                progress.tests,
            );
            if let Ok((_, tests)) = pass.inherited(
                target,
                tables,
                base_exprs(class),
                0,
                own,
                class_specs,
                class.name,
                progress.tests,
            ) {
                lemma_own_tests(
                    pass.config,
                    resolver,
                    class.name,
                    class_specs,
                    class.body,
                    0,
                    tests,
                );
            }
        }
    }
}

proof fn lemma_functions(
    pass: PassView,
    target: TargetView,
    stmts: Seq<StmtView>,
    i: int,
    done: Seq<TestView>,
)
    ensures
        pass.functions_from(target, stmts, i, done) matches Err(stop) ==> is_settled_stop(
            pass.loads,
            Some(target.resolver),
            stop,
        ),
    decreases stmts.len() - i,
{
    if 0 <= i < stmts.len() {
        lemma_functions(pass, target, stmts, i + 1, done);
        if let StmtView::FunctionDef(func) = stmts[i] {
            lemma_decorators_are_settled(func.decorators, Some(target.resolver), None);
            if let Ok(cases) = decorators_expansion(
                func.decorators,
                Some(target.resolver),
                None,
            ) {
                let test = test_of(func.name, func.offset as nat, None, cases);
                lemma_functions(pass, target, stmts, i + 1, done.push(test));
            }
        }
    }
}

proof fn lemma_classes(
    pass: PassView,
    target: TargetView,
    stmts: Seq<StmtView>,
    i: int,
    progress: ProgressView,
)
    ensures
        pass.classes_from(target, stmts, i, progress) matches Err(stop) ==> is_settled_stop(
            pass.loads,
            Some(target.resolver),
            stop,
        ),
    decreases stmts.len() - i,
{
    if 0 <= i < stmts.len() {
        if let StmtView::ClassDef(class) = stmts[i] {
            lemma_after_class(pass, target, progress, class);
            if let Ok(next) = pass.after_class(target, progress, class) {
                lemma_classes(pass, target, stmts, i + 1, next);
            }
        } else {
            lemma_classes(pass, target, stmts, i + 1, progress);
        }
    }
}

/// A pass stops only for modules that have not been loaded or that the resolver asks for.
pub proof fn lemma_pass_is_settled(
    pass: PassView,
    file: Seq<char>,
    path: Seq<Seq<char>>,
    stmts: Seq<StmtView>,
    resolver: ResolverView,
)
    ensures
        pass.result(file, path, stmts, resolver) matches Err(stop) ==> is_settled_stop(
            pass.loads,
            Some(resolver),
            stop,
        ),
{
    let imports = imports_from(stmts, 0, seq![]);
    let target = TargetView { file, path, imports, resolver };
    lemma_class_infos(
        pass.loads,
        pass.config,
        Some(resolver),
        true,
        stmts,
        0,
        path,
        imports,
        seq![],
    );
    lemma_functions(pass, target, stmts, 0, seq![]);
    if let Ok(own) = class_infos_from(
        pass.config,
        Some(resolver),
        true,
        stmts,
        0,
        path,
        imports,
        seq![],
    ) {
        if let Ok(tests) = pass.functions_from(target, stmts, 0, seq![]) {
            let start = ProgressView {
                tables: TablesView { own_path: path, own, loaded: seq![] },
                tests,
                warnings: seq![],
            };
            lemma_classes(pass, target, stmts, 0, start);
        }
    }
}

// ---------------------------------------------------------------------------------------------
// What the resolver learns
// ---------------------------------------------------------------------------------------------
/// How many of the loaded modules the resolver does not know yet.
pub open spec fn unlearned(loads: Seq<LoadView>, modules: Seq<KnownView>) -> nat
    decreases loads.len(),
{
    if loads.len() == 0 {
        0
    } else {
        unlearned(loads.drop_last(), modules) + if known_from(
            modules,
            loads.last().path,
            0,
        ) is None {
            1nat
        } else {
            0nat
        }
    }
}

proof fn lemma_unlearned_is_bounded(loads: Seq<LoadView>, modules: Seq<KnownView>)
    ensures
        unlearned(loads, modules) <= loads.len(),
    decreases loads.len(),
{
    if loads.len() > 0 {
        lemma_unlearned_is_bounded(loads.drop_last(), modules);
    }
}

proof fn lemma_known_after_push(
    modules: Seq<KnownView>,
    known: KnownView,
    path: Seq<Seq<char>>,
    i: int,
)
    requires
        0 <= i <= modules.len(),
    ensures
        known_from(modules.push(known), path, i) is Some == (known_from(modules, path, i) is Some
            || known.path == path),
    decreases modules.len() - i,
{
    let more = modules.push(known);
    if i < modules.len() {
        assert(more[i] == modules[i]);
        lemma_known_after_push(modules, known, path, i + 1);
    } else {
        assert(more[i] == known);
        assert(known_from(more, path, i + 1) is None);
    }
}

proof fn lemma_load_has_place(loads: Seq<LoadView>, path: Seq<Seq<char>>, i: int) -> (k: int)
    requires
        0 <= i,
        load_from(loads, path, i) is Some,
    ensures
        i <= k < loads.len(),
        loads[k].path == path,
    decreases loads.len() - i,
{
    if loads[i].path == path {
        i
    } else {
        lemma_load_has_place(loads, path, i + 1)
    }
}

proof fn lemma_one_less(loads: Seq<LoadView>, modules: Seq<KnownView>, known: KnownView, k: int)
    requires
        -1 <= k < loads.len(),
        k >= 0 ==> loads[k].path == known.path,
        known_from(modules, known.path, 0) is None,
    ensures
        unlearned(loads, modules.push(known)) + (if k >= 0 {
            1int
        } else {
            0int
        }) <= unlearned(loads, modules),
    decreases loads.len(),
{
    if loads.len() > 0 {
        let last = loads.last().path;
        lemma_known_after_push(modules, known, last, 0);
        if k == loads.len() - 1 {
            lemma_one_less(loads.drop_last(), modules, known, -1);
        } else {
            lemma_one_less(loads.drop_last(), modules, known, k);
        }
    }
}

proof fn lemma_learning(
    resolver: ResolverView,
    loads: Seq<LoadView>,
    path: Seq<Seq<char>>,
    loaded: Option<ModuleView>,
)
    requires
        asks_for(resolver, path),
        load_from(loads, path, 0) is Some,
    ensures
        unlearned(loads, resolver.with_module(path, loaded).modules) < unlearned(
            loads,
            resolver.modules,
        ),
{
    let k = lemma_load_has_place(loads, path, 0);
    lemma_one_less(loads, resolver.modules, KnownView { path, loaded }, k);
}

proof fn lemma_unlearned_by_paths(loads: Seq<LoadView>, a: Seq<KnownView>, b: Seq<KnownView>)
    requires
        same_paths(a, b),
    ensures
        unlearned(loads, a) == unlearned(loads, b),
    decreases loads.len(),
{
    if loads.len() > 0 {
        lemma_unlearned_by_paths(loads.drop_last(), a, b);
        lemma_known_by_paths(a, b, loads.last().path, 0);
    }
}

proof fn lemma_preparing(resolver: ResolverView, loads: Seq<LoadView>, fuel: nat)
    requires
        fuel >= unlearned(loads, resolver.modules),
    ensures
        prepared(resolver, loads, fuel).1 matches Some(path) ==> load_from(loads, path, 0) is None,
    decreases fuel,
{
    let (after, needed) = resolver.after_rounds();
    lemma_rounds_are_settled(resolver);
    lemma_unlearned_by_paths(loads, resolver.modules, after.modules);
    if let Some(path) = needed {
        if let Some(result) = load_from(loads, path, 0) {
            lemma_learning(after, loads, path, constants_of(result));
            lemma_preparing(
                after.with_module(path, constants_of(result)),
                loads,
                (fuel - 1) as nat,
            );
        }
    }
}

proof fn lemma_passing(
    pass: PassView,
    file: Seq<char>,
    path: Seq<Seq<char>>,
    stmts: Seq<StmtView>,
    resolver: ResolverView,
    fuel: nat,
)
    requires
        fuel >= unlearned(pass.loads, resolver.modules),
    ensures
        pass.outcome(file, path, stmts, resolver, fuel) matches Ok(DiscoveryView::Needs(needed))
            ==> load_from(pass.loads, needed, 0) is None,
    decreases fuel,
{
    lemma_pass_is_settled(pass, file, path, stmts, resolver);
    if let Err(StopView::Constants(needed)) = pass.result(file, path, stmts, resolver) {
        if let Some(result) = load_from(pass.loads, needed, 0) {
            lemma_learning(resolver, pass.loads, needed, constants_of(result));
            lemma_passing(
                pass,
                file,
                path,
                stmts,
                resolver.with_module(needed, constants_of(result)),
                (fuel - 1) as nat,
            );
        }
    }
}

/// Discovery never asks for a module that has been loaded, whatever loading it came to.
pub proof fn lemma_loaded_is_not_asked_for(
    pass: PassView,
    file: Seq<char>,
    path: Seq<Seq<char>>,
    stmts: Seq<StmtView>,
)
    ensures
        pass.discovered(file, path, stmts) matches Ok(DiscoveryView::Needs(needed)) ==> load_from(
            pass.loads,
            needed,
            0,
        ) is None,
{
    let start = fresh_resolver(stmts, path, true);
    lemma_unlearned_is_bounded(pass.loads, start.modules);
    lemma_preparing(start, pass.loads, pass.loads.len());
    let (resolver, _) = prepared(start, pass.loads, pass.loads.len());
    lemma_unlearned_is_bounded(pass.loads, resolver.modules);
    lemma_passing(pass, file, path, stmts, resolver, pass.loads.len());
}

/// A base class in a module that cannot be found is passed over; any other failure to load a module
/// is an error of discovery.
pub proof fn lemma_errors_of_loading_are_passed_on(
    pass: PassView,
    tables: TablesView,
    path: Seq<Seq<char>>,
    error: ErrorView,
)
    requires
        load_from(pass.loads, path, 0) == Some(Err::<Seq<StmtView>, ErrorView>(error)),
        loaded_from(tables.loaded, path, 0) is None,
    ensures
        error is ImportError ==> pass.ensure(tables, path) is Ok,
        !(error is ImportError) ==> pass.ensure(tables, path) == Err::<TablesView, StopView>(
            StopView::Error(error),
        ),
{
}

} // verus!
