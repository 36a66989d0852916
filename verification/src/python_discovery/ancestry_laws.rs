//! What a test class has from the classes it inherits from, in its own module and in others.

use crate::collection::error::{ErrorView, WarningView};
use crate::python_discovery::cases::{combined_expansion, InfoView};
use crate::python_discovery::constant_resolver::{fresh_resolver, BindingView, ResolverView};
use crate::python_discovery::constants::base_exprs;
use crate::python_discovery::decorators::decorators_info;
use crate::python_discovery::discovery::{
    defines_init, has_init, inherited_from, methods_from, own_tests_from, test_function, test_names,
    test_of, ConfigView, MethodView, TestView,
};
use crate::python_discovery::import_laws::{
    aliases_of, binds, is_last_import, lemma_last_import_is_bound, lemma_other_names_are_not_bound,
    spells,
};
use crate::python_discovery::module_resolver::{load_from, LoadView};
use crate::python_discovery::semantic_analyzer::{
    base_of, bases_from, class_info, class_infos_from, constants_of, imports_from, init_warning,
    is_stdlib_path, last_named, loaded_from, prepared, BaseView, ClassInfoView, ClassKey,
    DiscoveryView, LoadedView, PassView, ProgressView, StopView, TablesView, TargetView,
};
use crate::python_discovery::syntax::{ClassView, ExprView, StmtView};
use crate::python_discovery::visitor::local_resolver;
use crate::strings::lemma_joined_is_split_back;
use vstd::prelude::*;

verus! {

// ---------------------------------------------------------------------------------------------
// Modules and the classes in them
// ---------------------------------------------------------------------------------------------
/// What discovery goes over: a module, the modules that were loaded, and the patterns for names.
pub ghost struct WorldView {
    pub pass: PassView,
    pub path: Seq<Seq<char>>,
    pub stmts: Seq<StmtView>,
}

/// The first load of that path gave these statements.
pub open spec fn is_loaded_as(
    loads: Seq<LoadView>,
    path: Seq<Seq<char>>,
    stmts: Seq<StmtView>,
) -> bool {
    exists|l: int|
        {
            &&& 0 <= l < loads.len()
            &&& (#[trigger] loads[l]).path == path
            &&& loads[l].result == Ok::<Seq<StmtView>, ErrorView>(stmts)
            &&& forall|m: int| 0 <= m < l ==> (#[trigger] loads[m]).path != path
        }
}

/// The module of that path holds these statements.
pub open spec fn is_module(world: WorldView, path: Seq<Seq<char>>, stmts: Seq<StmtView>) -> bool {
    if path == world.path {
        stmts == world.stmts
    } else {
        is_loaded_as(world.pass.loads, path, stmts)
    }
}

/// The statement defines a class of that name.
pub open spec fn is_class(stmt: StmtView, name: Seq<char>) -> bool {
    stmt is ClassDef && stmt->ClassDef_0.name == name
}

/// The `j`-th statement is the last that defines a class of that name.
pub open spec fn is_last_class(stmts: Seq<StmtView>, j: int, name: Seq<char>) -> bool {
    0 <= j < stmts.len() && is_class(stmts[j], name) && forall|m: int|
        j < m < stmts.len() ==> !is_class(#[trigger] stmts[m], name)
}

/// The module of that path defines the class in the `j`-th of these statements. Of the classes in
/// the module that discovery goes over, the test classes count.
pub open spec fn is_defined_at(
    world: WorldView,
    path: Seq<Seq<char>>,
    class: Seq<char>,
    stmts: Seq<StmtView>,
    j: int,
) -> bool {
    &&& is_module(world, path, stmts)
    &&& is_last_class(stmts, j, class)
    &&& path == world.path ==> world.pass.config.is_test_class(class)
}

/// One of the statements defines a function of that name.
pub open spec fn defines_function(body: Seq<StmtView>, name: Seq<char>) -> bool {
    exists|k: int|
        0 <= k < body.len() && (#[trigger] body[k]) is FunctionDef && body[k]->FunctionDef_0.name
            == name
}

/// Seen from the module `path`, the import is from the module `from`.
pub open spec fn is_import_from(
    path: Seq<Seq<char>>,
    stmt: StmtView,
    from: Seq<Seq<char>>,
    parts: Seq<Seq<char>>,
) -> bool {
    &&& stmt is ImportFrom
    &&& match stmt->ImportFrom_module {
        Some(dotted) => spells(parts, dotted),
        None => parts.len() == 0,
    }
    &&& if stmt->level == 0 {
        from == parts
    } else {
        stmt->level <= path.len() && from == path.take(path.len() - stmt->level) + parts
    }
}

/// In the module `path`, the expression names the class `class` of the module `base`: as a class of
/// that module itself, as one imported from another, or as an attribute of an imported module.
pub open spec fn refers(
    e: ExprView,
    path: Seq<Seq<char>>,
    stmts: Seq<StmtView>,
    base: Seq<Seq<char>>,
    class: Seq<char>,
) -> bool
    decreases e,
{
    match e {
        ExprView::Name(id) => {
            ||| base == path && class == id && forall|j: int|
                0 <= j < stmts.len() ==> !binds(#[trigger] stmts[j], id)
            ||| exists|i: int, k: int, parts: Seq<Seq<char>>|
                {
                    &&& #[trigger] is_last_import(stmts, i, k, id)
                    &&& #[trigger] is_import_from(path, stmts[i], base, parts)
                    &&& class == aliases_of(stmts[i])[k].name
                }
        },
        ExprView::Attribute { value, attr } => match *value {
            ExprView::Name(id) => exists|i: int, k: int|
                {
                    &&& #[trigger] is_last_import(stmts, i, k, id)
                    &&& stmts[i] is Import
                    &&& spells(base, aliases_of(stmts[i])[k].name)
                    &&& class == attr
                },
            _ => false,
        },
        ExprView::Subscript { value } => refers(*value, path, stmts, base, class),
        _ => false,
    }
}

/// The `k`-th base of the class is the class `name` of the module `base`.
pub open spec fn is_base(
    path: Seq<Seq<char>>,
    stmts: Seq<StmtView>,
    class: ClassView,
    k: int,
    base: Seq<Seq<char>>,
    name: Seq<char>,
) -> bool {
    &&& class.bases is Some
    &&& 0 <= k < class.bases->0.len()
    &&& refers(class.bases->0[k], path, stmts, base, name)
    &&& !is_stdlib_path(base)
}

/// The class, or one that it inherits from over `depth` levels at most, defines the method.
pub open spec fn has_method(
    world: WorldView,
    path: Seq<Seq<char>>,
    class: Seq<char>,
    method: Seq<char>,
    depth: nat,
) -> bool
    decreases depth,
{
    exists|stmts: Seq<StmtView>, j: int| #[trigger]
        is_defined_at(world, path, class, stmts, j) && {
            ||| defines_function(stmts[j]->ClassDef_0.body, method)
            ||| depth > 0 && exists|k: int, base: Seq<Seq<char>>, name: Seq<char>|
                #![trigger is_base(path, stmts, stmts[j]->ClassDef_0, k, base, name)]
                is_base(path, stmts, stmts[j]->ClassDef_0, k, base, name) && has_method(
                    world,
                    base,
                    name,
                    method,
                    (depth - 1) as nat,
                )
        }
}

// ---------------------------------------------------------------------------------------------
// Lookups
// ---------------------------------------------------------------------------------------------
proof fn lemma_load_is_first(
    loads: Seq<LoadView>,
    path: Seq<Seq<char>>,
    from: int,
    l: int,
)
    requires
        0 <= from <= l < loads.len(),
        loads[l].path == path,
        forall|m: int| from <= m < l ==> (#[trigger] loads[m]).path != path,
    ensures
        load_from(loads, path, from) == Some(loads[l].result),
    decreases l - from,
{
    if from < l {
        assert(loads[from].path != path);
        lemma_load_is_first(loads, path, from + 1, l);
    }
}

/// What a module was loaded as is what its first load gave.
pub proof fn lemma_loaded_module_is_found(
    loads: Seq<LoadView>,
    path: Seq<Seq<char>>,
    stmts: Seq<StmtView>,
)
    requires
        is_loaded_as(loads, path, stmts),
    ensures
        load_from(loads, path, 0) == Some(Ok::<Seq<StmtView>, ErrorView>(stmts)),
{
    let l = choose|l: int|
        {
            &&& 0 <= l < loads.len()
            &&& (#[trigger] loads[l]).path == path
            &&& loads[l].result == Ok::<Seq<StmtView>, ErrorView>(stmts)
            &&& forall|m: int| 0 <= m < l ==> (#[trigger] loads[m]).path != path
        };
    lemma_load_is_first(loads, path, 0, l);
}

proof fn lemma_spelling_is_unique(a: Seq<Seq<char>>, b: Seq<Seq<char>>, dotted: Seq<char>)
    requires
        spells(a, dotted),
        spells(b, dotted),
    ensures
        a == b,
{
    lemma_joined_is_split_back(a, '.');
    lemma_joined_is_split_back(b, '.');
}

/// An expression that names a class as a base leads to it.
pub proof fn lemma_base_is_found(
    e: ExprView,
    path: Seq<Seq<char>>,
    stmts: Seq<StmtView>,
    base: Seq<Seq<char>>,
    class: Seq<char>,
)
    requires
        refers(e, path, stmts, base, class),
    ensures
        base_of(e, path, imports_from(stmts, 0, seq![])) matches Ok(Some(found)) && {
            &&& found.mod_path == base
            &&& found.class_name == class
            &&& found.is_local ==> base == path
        },
    decreases e,
{
    match e {
        ExprView::Name(id) => {
            if base == path && class == id && forall|j: int|
                0 <= j < stmts.len() ==> !binds(#[trigger] stmts[j], id) {
                lemma_other_names_are_not_bound(stmts, id);
            } else {
                let (i, k, parts) = choose|i: int, k: int, parts: Seq<Seq<char>>|
                    {
                        &&& #[trigger] is_last_import(stmts, i, k, id)
                        &&& #[trigger] is_import_from(path, stmts[i], base, parts)
                        &&& class == aliases_of(stmts[i])[k].name
                    };
                lemma_last_import_is_bound(stmts, i, k, id);
                let binding = entry_of(stmts, id);
                match stmts[i]->ImportFrom_module {
                    Some(dotted) => {
                        lemma_spelling_is_unique(binding.mod_path, parts, dotted);
                    },
                    None => {
                        assert(binding.mod_path =~= parts);
                    },
                }
            }
        },
        ExprView::Attribute { value, attr } => {
            if let ExprView::Name(id) = *value {
                let (i, k) = choose|i: int, k: int|
                    {
                        &&& #[trigger] is_last_import(stmts, i, k, id)
                        &&& stmts[i] is Import
                        &&& spells(base, aliases_of(stmts[i])[k].name)
                        &&& class == attr
                    };
                lemma_last_import_is_bound(stmts, i, k, id);
                lemma_spelling_is_unique(
                    entry_of(stmts, id).mod_path,
                    base,
                    aliases_of(stmts[i])[k].name,
                );
            }
        },
        ExprView::Subscript { value } => {
            lemma_base_is_found(*value, path, stmts, base, class);
        },
        _ => {},
    }
}

spec fn entry_of(stmts: Seq<StmtView>, id: Seq<char>) -> BindingView {
    crate::table::entry(imports_from(stmts, 0, seq![]), id)->0
}

proof fn lemma_bases(
    exprs: Seq<ExprView>,
    i: int,
    current: Seq<Seq<char>>,
    imports: Seq<(Seq<char>, BindingView)>,
    done: Seq<BaseView>,
)
    requires
        0 <= i,
        forall|x: int|
            0 <= x < done.len() && done[x].is_local ==> (#[trigger] done[x]).mod_path == current,
    ensures
        bases_from(exprs, i, current, imports, done) matches Ok(bases) ==> {
            &&& done.len() <= bases.len()
            &&& forall|x: int| 0 <= x < done.len() ==> #[trigger] bases[x] == done[x]
            &&& forall|x: int|
                0 <= x < bases.len() && bases[x].is_local ==> (#[trigger] bases[x]).mod_path
                    == current
            &&& forall|k: int|
                i <= k < exprs.len() ==> match base_of(#[trigger] exprs[k], current, imports) {
                    Ok(Some(base)) => bases.contains(base),
                    _ => true,
                }
        },
    decreases exprs.len() - i,
{
    if i < exprs.len() {
        lemma_local_base(exprs[i], current, imports);
        match base_of(exprs[i], current, imports) {
            Ok(Some(base)) => {
                let next = done.push(base);
                assert forall|x: int| 0 <= x < next.len() && next[x].is_local implies (
                #[trigger] next[x]).mod_path == current by {
                    if x < done.len() {
                        assert(next[x] == done[x]);
                    }
                }
                lemma_bases(exprs, i + 1, current, imports, next);
                if let Ok(bases) = bases_from(exprs, i, current, imports, done) {
                    assert(bases[done.len() as int] == next[done.len() as int]);
                    assert(bases.contains(base));
                    assert forall|x: int| 0 <= x < done.len() implies #[trigger] bases[x]
                        == done[x] by {
                        assert(next[x] == done[x]);
                    }
                }
            },
            Ok(None) => {
                lemma_bases(exprs, i + 1, current, imports, done);
            },
            Err(_) => {},
        }
    }
}

proof fn lemma_local_base(
    e: ExprView,
    current: Seq<Seq<char>>,
    imports: Seq<(Seq<char>, BindingView)>,
)
    ensures
        base_of(e, current, imports) matches Ok(Some(base)) ==> base.is_local ==> base.mod_path
            == current,
    decreases e,
{
    if let ExprView::Subscript { value } = e {
        lemma_local_base(*value, current, imports);
    }
}

/// The methods of a class body are its test functions.
pub proof fn lemma_methods(
    config: ConfigView,
    resolver: Option<ResolverView>,
    class: Seq<char>,
    body: Seq<StmtView>,
    i: int,
    done: Seq<MethodView>,
    name: Seq<char>,
)
    requires
        0 <= i,
    ensures
        methods_from(config, resolver, class, body, i, done) matches Ok(methods) ==> {
            &&& forall|x: int| 0 <= x < done.len() && done[x].name == name ==> has_named(
                methods,
                name,
            )
            &&& forall|k: int|
                i <= k < body.len() && (#[trigger] body[k]) is FunctionDef
                    && body[k]->FunctionDef_0.name == name && config.is_test_function(name)
                    ==> has_named(methods, name)
        },
    decreases body.len() - i,
{
    if i < body.len() {
        match test_function(config, body[i]) {
            None => {
                lemma_methods(config, resolver, class, body, i + 1, done, name);
            },
            Some(func) => {
                if let Ok(method_specs) = decorators_info(func.decorators, resolver, Some(class)) {
                    let next = done.push(
                        MethodView { name: func.name, line: func.offset as nat, method_specs },
                    );
                    lemma_methods(config, resolver, class, body, i + 1, next, name);
                    if let Ok(methods) = methods_from(config, resolver, class, body, i, done) {
                        if func.name == name {
                            assert(next[done.len() as int].name == name);
                        }
                        assert forall|x: int| 0 <= x < done.len() && done[x].name
                            == name implies has_named(methods, name) by {
                            assert(next[x].name == name);
                        }
                    }
                }
            },
        }
    } else {
        if let Ok(methods) = methods_from(config, resolver, class, body, i, done) {
            assert forall|x: int| 0 <= x < done.len() && done[x].name == name implies has_named(
                methods,
                name,
            ) by {
                assert(methods[x].name == name);
            }
        }
    }
}

/// One of the methods has that name.
pub open spec fn has_named(methods: Seq<MethodView>, name: Seq<char>) -> bool {
    exists|x: int| 0 <= x < methods.len() && (#[trigger] methods[x]).name == name
}

proof fn lemma_other_classes_keep(
    config: ConfigView,
    resolver: Option<ResolverView>,
    tests_only: bool,
    stmts: Seq<StmtView>,
    i: int,
    current: Seq<Seq<char>>,
    imports: Seq<(Seq<char>, BindingView)>,
    done: Seq<ClassInfoView>,
    name: Seq<char>,
)
    requires
        0 <= i,
        forall|m: int| i <= m < stmts.len() ==> !is_class(#[trigger] stmts[m], name),
    ensures
        class_infos_from(config, resolver, tests_only, stmts, i, current, imports, done) matches Ok(
            classes,
        ) ==> last_named(classes, name) == last_named(done, name),
    decreases stmts.len() - i,
{
    if i < stmts.len() {
        assert(!is_class(stmts[i], name));
        match stmts[i] {
            StmtView::ClassDef(class) if !tests_only || config.is_test_class(class.name) => {
                if let Ok(info) = class_info(config, resolver, class, current, imports) {
                    let next = done.push(info);
                    assert(next.drop_last() =~= done);
                    lemma_other_classes_keep(
                        config,
                        resolver,
                        tests_only,
                        stmts,
                        i + 1,
                        current,
                        imports,
                        next,
                        name,
                    );
                }
            },
            _ => {
                lemma_other_classes_keep(
                    config,
                    resolver,
                    tests_only,
                    stmts,
                    i + 1,
                    current,
                    imports,
                    done,
                    name,
                );
            },
        }
    }
}

proof fn lemma_last_class_is_kept(
    config: ConfigView,
    resolver: Option<ResolverView>,
    tests_only: bool,
    stmts: Seq<StmtView>,
    i: int,
    current: Seq<Seq<char>>,
    imports: Seq<(Seq<char>, BindingView)>,
    done: Seq<ClassInfoView>,
    j: int,
    name: Seq<char>,
)
    requires
        0 <= i <= j,
        is_last_class(stmts, j, name),
        tests_only ==> config.is_test_class(name),
    ensures
        class_infos_from(config, resolver, tests_only, stmts, i, current, imports, done) matches Ok(
            classes,
        ) ==> {
            &&& last_named(classes, name) is Some
            &&& class_info(config, resolver, stmts[j]->ClassDef_0, current, imports) == Ok::<
                ClassInfoView,
                StopView,
            >(last_named(classes, name)->0)
        },
    decreases j - i,
{
    if i < j {
        match stmts[i] {
            StmtView::ClassDef(class) if !tests_only || config.is_test_class(class.name) => {
                if let Ok(info) = class_info(config, resolver, class, current, imports) {
                    lemma_last_class_is_kept(
                        config,
                        resolver,
                        tests_only,
                        stmts,
                        i + 1,
                        current,
                        imports,
                        done.push(info),
                        j,
                        name,
                    );
                }
            },
            _ => {
                lemma_last_class_is_kept(
                    config,
                    resolver,
                    tests_only,
                    stmts,
                    i + 1,
                    current,
                    imports,
                    done,
                    j,
                    name,
                );
            },
        }
    } else {
        let class = stmts[j]->ClassDef_0;
        if let Ok(info) = class_info(config, resolver, class, current, imports) {
            let next = done.push(info);
            assert(next.last() == info);
            lemma_other_classes_keep(
                config,
                resolver,
                tests_only,
                stmts,
                i + 1,
                current,
                imports,
                next,
                name,
            );
        }
    }
}

// ---------------------------------------------------------------------------------------------
// Tables
// ---------------------------------------------------------------------------------------------
/// What the tables hold of a module is what its load gave.
spec fn is_true_of(pass: PassView, path: Seq<Seq<char>>, classes: Seq<ClassInfoView>) -> bool {
    match load_from(pass.loads, path, 0) {
        Some(Ok(stmts)) => class_infos_from(
            pass.config,
            Some(local_resolver(stmts)),
            false,
            stmts,
            0,
            path,
            imports_from(stmts, 0, seq![]),
            seq![],
        ) == Ok::<Seq<ClassInfoView>, StopView>(classes),
        Some(Err(_)) => classes.len() == 0,
        None => false,
    }
}

/// The tables hold the test classes of the module, and of others what their loads gave.
#[verifier::opaque]
spec fn are_true(world: WorldView, tables: TablesView, own: Seq<ClassInfoView>) -> bool {
    &&& tables.own_path == world.path
    &&& tables.own == own
    &&& forall|path: Seq<Seq<char>>| #[trigger]
        loaded_from(tables.loaded, path, 0) is Some ==> is_true_of(
            world.pass,
            path,
            loaded_from(tables.loaded, path, 0)->0,
        )
}

/// Whatever was looked into before still is.
#[verifier::opaque]
spec fn grew(before: TablesView, after: TablesView) -> bool {
    forall|path: Seq<Seq<char>>|
        loaded_from(before.loaded, path, 0) is Some ==> #[trigger] loaded_from(
            after.loaded,
            path,
            0,
        ) is Some
}

proof fn lemma_loaded_pushed(
    list: Seq<LoadedView>,
    more: LoadedView,
    path: Seq<Seq<char>>,
    i: int,
)
    requires
        0 <= i <= list.len(),
    ensures
        loaded_from(list.push(more), path, i) == match loaded_from(list, path, i) {
            Some(classes) => Some(classes),
            None => if more.path == path {
                Some(more.classes)
            } else {
                None
            },
        },
    decreases list.len() - i,
{
    let all = list.push(more);
    if i < list.len() {
        assert(all[i] == list[i]);
        lemma_loaded_pushed(list, more, path, i + 1);
    } else {
        assert(all[i] == more);
        assert(loaded_from(all, path, i + 1) is None);
    }
}

proof fn lemma_entered(
    world: WorldView,
    tables: TablesView,
    own: Seq<ClassInfoView>,
    base: BaseView,
)
    requires
        are_true(world, tables, own),
    ensures
        world.pass.entered(tables, base) matches Ok(now) ==> {
            &&& are_true(world, now, own)
            &&& grew(tables, now)
            &&& !base.is_local ==> loaded_from(now.loaded, base.mod_path, 0) is Some
        },
{
    reveal(are_true);
    reveal(grew);
    if let Ok(now) = world.pass.entered(tables, base) {
        if !base.is_local && loaded_from(tables.loaded, base.mod_path, 0) is None {
            let more = now.loaded.last();
            assert(now.loaded =~= tables.loaded.push(more));
            assert forall|path: Seq<Seq<char>>| #[trigger]
                loaded_from(now.loaded, path, 0) is Some implies is_true_of(
                world.pass,
                path,
                loaded_from(now.loaded, path, 0)->0,
            ) by {
                lemma_loaded_pushed(tables.loaded, more, path, 0);
                assert(loaded_from(tables.loaded, path, 0) is Some ==> is_true_of(
                    world.pass,
                    path,
                    loaded_from(tables.loaded, path, 0)->0,
                ));
            }
            assert forall|path: Seq<Seq<char>>|
                loaded_from(tables.loaded, path, 0) is Some implies #[trigger] loaded_from(
                now.loaded,
                path,
                0,
            ) is Some by {
                lemma_loaded_pushed(tables.loaded, more, path, 0);
            }
            lemma_loaded_pushed(tables.loaded, more, base.mod_path, 0);
        }
    }
}

proof fn lemma_growing(a: TablesView, b: TablesView, c: TablesView)
    requires
        grew(a, b),
        grew(b, c),
    ensures
        grew(a, c),
{
    reveal(grew);
    assert forall|path: Seq<Seq<char>>|
        loaded_from(a.loaded, path, 0) is Some implies #[trigger] loaded_from(
        c.loaded,
        path,
        0,
    ) is Some by {
        assert(loaded_from(b.loaded, path, 0) is Some);
    }
}

proof fn lemma_nothing_grew(tables: TablesView)
    ensures
        grew(tables, tables),
{
    reveal(grew);
}

proof fn lemma_still_reachable(
    world: WorldView,
    before: TablesView,
    after: TablesView,
    bases: Seq<BaseView>,
)
    requires
        grew(before, after),
        forall|x: int| 0 <= x < bases.len() ==> is_reachable(world, before, #[trigger] bases[x]),
    ensures
        forall|x: int| 0 <= x < bases.len() ==> is_reachable(world, after, #[trigger] bases[x]),
{
    reveal(grew);
    assert forall|x: int| 0 <= x < bases.len() implies is_reachable(
        world,
        after,
        #[trigger] bases[x],
    ) by {
        assert(is_reachable(world, before, bases[x]));
    }
}

proof fn lemma_init_keeps(
    world: WorldView,
    tables: TablesView,
    own: Seq<ClassInfoView>,
    base: BaseView,
    visited: Seq<ClassKey>,
    fuel: nat,
)
    requires
        are_true(world, tables, own),
    ensures
        world.pass.base_has_init(tables, base, visited, fuel) matches Ok((now, _)) ==> are_true(
            world,
            now,
            own,
        ) && grew(tables, now),
    decreases fuel, 0int, 0int,
{
    lemma_nothing_grew(tables);
    let key = (base.mod_path, base.class_name);
    if !is_stdlib_path(base.mod_path) && !visited.contains(key) && fuel > 0 {
        lemma_entered(world, tables, own, base);
        if let Ok(now) = world.pass.entered(tables, base) {
            if let Some(info) = now.class(base.mod_path, base.class_name) {
                if !info.has_init {
                    lemma_any_init_keeps(
                        world,
                        now,
                        own,
                        info.base_classes,
                        0,
                        visited.push(key),
                        (fuel - 1) as nat,
                    );
                    if let Ok((after, _)) = world.pass.base_has_init(tables, base, visited, fuel) {
                        lemma_growing(tables, now, after);
                    }
                }
            }
        }
    }
}

proof fn lemma_any_init_keeps(
    world: WorldView,
    tables: TablesView,
    own: Seq<ClassInfoView>,
    bases: Seq<BaseView>,
    i: int,
    visited: Seq<ClassKey>,
    fuel: nat,
)
    requires
        are_true(world, tables, own),
    ensures
        world.pass.any_has_init(tables, bases, i, visited, fuel) matches Ok((now, _)) ==> are_true(
            world,
            now,
            own,
        ) && grew(tables, now),
    decreases fuel, 1int, bases.len() - i,
{
    lemma_nothing_grew(tables);
    if 0 <= i < bases.len() {
        lemma_init_keeps(world, tables, own, bases[i], visited, fuel);
        if let Ok((now, false)) = world.pass.base_has_init(tables, bases[i], visited, fuel) {
            lemma_any_init_keeps(world, now, own, bases, i + 1, visited, fuel);
            if let Ok((after, _)) = world.pass.any_has_init(tables, bases, i, visited, fuel) {
                lemma_growing(tables, now, after);
            }
        }
    }
}

proof fn lemma_methods_keep(
    world: WorldView,
    tables: TablesView,
    own: Seq<ClassInfoView>,
    base: BaseView,
    visited: Seq<ClassKey>,
    fuel: nat,
)
    requires
        are_true(world, tables, own),
    ensures
        world.pass.base_methods(tables, base, visited, fuel) matches Ok((now, _)) ==> are_true(
            world,
            now,
            own,
        ) && grew(tables, now),
    decreases fuel, 0int, 0int,
{
    lemma_nothing_grew(tables);
    let key = (base.mod_path, base.class_name);
    if !is_stdlib_path(base.mod_path) && !visited.contains(key) && fuel > 0 {
        lemma_entered(world, tables, own, base);
        if let Ok(now) = world.pass.entered(tables, base) {
            if let Some(info) = now.class(base.mod_path, base.class_name) {
                lemma_all_methods_keep(
                    world,
                    now,
                    own,
                    info.base_classes,
                    0,
                    visited.push(key),
                    seq![],
                    (fuel - 1) as nat,
                );
                if let Ok((after, _)) = world.pass.base_methods(tables, base, visited, fuel) {
                    lemma_growing(tables, now, after);
                }
            }
        }
    }
}

proof fn lemma_all_methods_keep(
    world: WorldView,
    tables: TablesView,
    own: Seq<ClassInfoView>,
    bases: Seq<BaseView>,
    i: int,
    visited: Seq<ClassKey>,
    done: Seq<MethodView>,
    fuel: nat,
)
    requires
        are_true(world, tables, own),
    ensures
        world.pass.all_methods(tables, bases, i, visited, done, fuel) matches Ok((now, methods))
            ==> {
            &&& are_true(world, now, own)
            &&& grew(tables, now)
            &&& done.is_prefix_of(methods)
        },
    decreases fuel, 1int, bases.len() - i,
{
    lemma_nothing_grew(tables);
    if 0 <= i < bases.len() {
        lemma_methods_keep(world, tables, own, bases[i], visited, fuel);
        if let Ok((now, found)) = world.pass.base_methods(tables, bases[i], visited, fuel) {
            let next = match found {
                Some(methods) => done + methods,
                None => done,
            };
            assert(done.is_prefix_of(next));
            lemma_all_methods_keep(world, now, own, bases, i + 1, visited, next, fuel);
            if let Ok((after, methods)) = world.pass.all_methods(
                tables,
                bases,
                i,
                visited,
                done,
                fuel,
            ) {
                lemma_growing(tables, now, after);
                assert(next.is_prefix_of(methods));
                assert(done =~= methods.take(done.len() as int)) by {
                    assert(next =~= methods.take(next.len() as int));
                    assert forall|x: int| 0 <= x < done.len() implies done[x] == methods[x] by {
                        assert(next[x] == methods.take(next.len() as int)[x]);
                    }
                }
            }
        }
    } else {
        assert(done =~= done.take(done.len() as int));
    }
}

/// The test classes of the module, as a pass keeps them.
spec fn is_own(world: WorldView, resolver: ResolverView, own: Seq<ClassInfoView>) -> bool {
    class_infos_from(
        world.pass.config,
        Some(resolver),
        true,
        world.stmts,
        0,
        world.path,
        imports_from(world.stmts, 0, seq![]),
        seq![],
    ) == Ok::<Seq<ClassInfoView>, StopView>(own)
}

/// The base is looked up in a module that was looked into, or in the module itself.
spec fn is_reachable(world: WorldView, tables: TablesView, base: BaseView) -> bool {
    base.is_local ==> base.mod_path == world.path || loaded_from(
        tables.loaded,
        base.mod_path,
        0,
    ) is Some
}

/// The tables know a class of a module by its last definition.
proof fn lemma_class_is_known(
    world: WorldView,
    resolver: ResolverView,
    own: Seq<ClassInfoView>,
    tables: TablesView,
    path: Seq<Seq<char>>,
    class: Seq<char>,
    stmts: Seq<StmtView>,
    j: int,
) -> (r: Option<ResolverView>)
    requires
        are_true(world, tables, own),
        is_own(world, resolver, own),
        load_from(world.pass.loads, world.path, 0) is None,
        is_defined_at(world, path, class, stmts, j),
        path == world.path || loaded_from(tables.loaded, path, 0) is Some,
    ensures
        tables.class(path, class) is Some,
        class_info(
            world.pass.config,
            r,
            stmts[j]->ClassDef_0,
            path,
            imports_from(stmts, 0, seq![]),
        ) == Ok::<ClassInfoView, StopView>(tables.class(path, class)->0),
{
    reveal(are_true);
    let config = world.pass.config;
    let imports = imports_from(stmts, 0, seq![]);
    if path == world.path {
        assert(loaded_from(tables.loaded, path, 0) is None) by {
            if loaded_from(tables.loaded, path, 0) is Some {
                assert(is_true_of(world.pass, path, loaded_from(tables.loaded, path, 0)->0));
            }
        }
        lemma_last_class_is_kept(
            config,
            Some(resolver),
            true,
            stmts,
            0,
            path,
            imports,
            seq![],
            j,
            class,
        );
        Some(resolver)
    } else {
        let classes = loaded_from(tables.loaded, path, 0)->0;
        assert(is_true_of(world.pass, path, classes));
        lemma_loaded_module_is_found(world.pass.loads, path, stmts);
        lemma_last_class_is_kept(
            config,
            Some(local_resolver(stmts)),
            false,
            stmts,
            0,
            path,
            imports,
            seq![],
            j,
            class,
        );
        Some(local_resolver(stmts))
    }
}

// ---------------------------------------------------------------------------------------------
// Inherited methods
// ---------------------------------------------------------------------------------------------
#[verifier::spinoff_prover]
#[verifier::rlimit(40)]
proof fn lemma_base_gives_method(
    world: WorldView,
    resolver: ResolverView,
    own: Seq<ClassInfoView>,
    tables: TablesView,
    base: BaseView,
    visited: Seq<ClassKey>,
    fuel: nat,
    method: Seq<char>,
    depth: nat,
)
    requires
        are_true(world, tables, own),
        is_own(world, resolver, own),
        load_from(world.pass.loads, world.path, 0) is None,
        is_reachable(world, tables, base),
        !is_stdlib_path(base.mod_path),
        world.pass.config.is_test_function(method),
        has_method(world, base.mod_path, base.class_name, method, depth),
    ensures
        world.pass.base_methods(tables, base, visited, fuel) matches Ok((_, found)) ==> found is Some
            && has_named(found->0, method),
    decreases depth, 0int, 0int,
{
    let path = base.mod_path;
    let class = base.class_name;
    let key = (path, class);
    if let Ok((_, found)) = world.pass.base_methods(tables, base, visited, fuel) {
        lemma_entered(world, tables, own, base);
        assert(world.pass.entered(tables, base) is Ok);
        let now = world.pass.entered(tables, base)->Ok_0;
        assert(is_reachable(world, now, base)) by {
            reveal(grew);
        }
        let (stmts, j) = choose|stmts: Seq<StmtView>, j: int| #[trigger]
            is_defined_at(world, path, class, stmts, j) && {
                ||| defines_function(stmts[j]->ClassDef_0.body, method)
                ||| depth > 0 && exists|k: int, base: Seq<Seq<char>>, name: Seq<char>|
                    #![trigger is_base(path, stmts, stmts[j]->ClassDef_0, k, base, name)]
                    is_base(path, stmts, stmts[j]->ClassDef_0, k, base, name) && has_method(
                        world,
                        base,
                        name,
                        method,
                        (depth - 1) as nat,
                    )
            };
        let def = stmts[j]->ClassDef_0;
        assert(path == world.path || loaded_from(now.loaded, path, 0) is Some);
        let r = lemma_class_is_known(world, resolver, own, now, path, class, stmts, j);
        let info = now.class(path, class)->0;
        let imports = imports_from(stmts, 0, seq![]);
        let less = (fuel - 1) as nat;
        let (after, inherited) = world.pass.all_methods(
            now,
            info.base_classes,
            0,
            visited.push(key),
            seq![],
            less,
        )->Ok_0;
        let all = inherited + info.test_methods;
        assert(found == Some(all));
        if defines_function(def.body, method) {
            lemma_methods(world.pass.config, r, def.name, def.body, 0, seq![], method);
            let k = choose|k: int|
                0 <= k < def.body.len() && (#[trigger] def.body[k]) is FunctionDef
                    && def.body[k]->FunctionDef_0.name == method;
            assert(def.body[k] is FunctionDef);
            assert(has_named(info.test_methods, method));
            let x = choose|x: int|
                0 <= x < info.test_methods.len() && (#[trigger] info.test_methods[x]).name
                    == method;
            assert(all[inherited.len() + x].name == method);
        } else {
            let (k, base_path, name) = choose|k: int, base: Seq<Seq<char>>, name: Seq<char>|
                #![trigger is_base(path, stmts, def, k, base, name)]
                is_base(path, stmts, def, k, base, name) && has_method(
                    world,
                    base,
                    name,
                    method,
                    (depth - 1) as nat,
                );
            let exprs = base_exprs(def);
            lemma_base_is_found(exprs[k], path, stmts, base_path, name);
            let next = base_of(exprs[k], path, imports)->Ok_0->0;
            lemma_bases(exprs, 0, path, imports, seq![]);
            assert(info.base_classes.contains(next));
            let b = choose|b: int| 0 <= b < info.base_classes.len() && info.base_classes[b] == next;
            assert forall|x: int| 0 <= x < info.base_classes.len() implies is_reachable(
                world,
                now,
                #[trigger] info.base_classes[x],
            ) by {}
            lemma_bases_give_method(
                world,
                resolver,
                own,
                now,
                info.base_classes,
                0,
                visited.push(key),
                seq![],
                less,
                b,
                method,
                (depth - 1) as nat,
            );
            let x = choose|x: int|
                0 <= x < inherited.len() && (#[trigger] inherited[x]).name == method;
            assert(all[x].name == method);
        }
    }
}

proof fn lemma_named_is_kept(
    done: Seq<MethodView>,
    more: Seq<MethodView>,
    all: Seq<MethodView>,
    name: Seq<char>,
)
    requires
        has_named(more, name),
        (done + more).is_prefix_of(all),
    ensures
        has_named(all, name),
{
    let x = choose|x: int| 0 <= x < more.len() && (#[trigger] more[x]).name == name;
    let at = done.len() + x;
    assert((done + more)[at] == more[x]);
    assert((done + more) =~= all.take((done + more).len() as int));
    assert(all[at] == all.take((done + more).len() as int)[at]);
    assert(all[at].name == name);
}

#[verifier::spinoff_prover]
#[verifier::rlimit(40)]
proof fn lemma_bases_give_method(
    world: WorldView,
    resolver: ResolverView,
    own: Seq<ClassInfoView>,
    tables: TablesView,
    bases: Seq<BaseView>,
    i: int,
    visited: Seq<ClassKey>,
    done: Seq<MethodView>,
    fuel: nat,
    b: int,
    method: Seq<char>,
    depth: nat,
)
    requires
        are_true(world, tables, own),
        is_own(world, resolver, own),
        load_from(world.pass.loads, world.path, 0) is None,
        0 <= i <= b < bases.len(),
        forall|x: int| 0 <= x < bases.len() ==> is_reachable(world, tables, #[trigger] bases[x]),
        !is_stdlib_path(bases[b].mod_path),
        world.pass.config.is_test_function(method),
        has_method(world, bases[b].mod_path, bases[b].class_name, method, depth),
    ensures
        world.pass.all_methods(tables, bases, i, visited, done, fuel) matches Ok((_, methods))
            ==> has_named(methods, method),
    decreases depth, 1int, bases.len() - i,
{
    if let Ok((_, methods)) = world.pass.all_methods(tables, bases, i, visited, done, fuel) {
        lemma_methods_keep(world, tables, own, bases[i], visited, fuel);
        assert(world.pass.base_methods(tables, bases[i], visited, fuel) is Ok);
        let (now, found) = world.pass.base_methods(tables, bases[i], visited, fuel)->Ok_0;
        let next = match found {
            Some(more) => done + more,
            None => done,
        };
        assert(world.pass.all_methods(tables, bases, i, visited, done, fuel)
            == world.pass.all_methods(now, bases, i + 1, visited, next, fuel));
        if i < b {
            lemma_still_reachable(world, tables, now, bases);
            lemma_bases_give_method(
                world,
                resolver,
                own,
                now,
                bases,
                i + 1,
                visited,
                next,
                fuel,
                b,
                method,
                depth,
            );
        } else {
            assert(is_reachable(world, tables, bases[b]));
            lemma_base_gives_method(
                world,
                resolver,
                own,
                tables,
                bases[b],
                visited,
                fuel,
                method,
                depth,
            );
            lemma_all_methods_keep(world, now, own, bases, i + 1, visited, next, fuel);
            lemma_named_is_kept(done, found->0, methods, method);
        }
    }
}

// ---------------------------------------------------------------------------------------------
// Tests of a class
// ---------------------------------------------------------------------------------------------
/// A test of that name is among those of the class.
pub open spec fn has_test(tests: Seq<TestView>, class: Seq<char>, name: Seq<char>) -> bool {
    exists|x: int|
        0 <= x < tests.len() && (#[trigger] tests[x]).name == name && tests[x].class_name == Some(
            class,
        ) && tests[x].is_method
}

/// A test stays where tests are added behind it.
pub proof fn lemma_test_is_kept(
    before: Seq<TestView>,
    after: Seq<TestView>,
    class: Seq<char>,
    name: Seq<char>,
)
    requires
        has_test(before, class, name),
        before.is_prefix_of(after),
    ensures
        has_test(after, class, name),
{
    let x = choose|x: int|
        0 <= x < before.len() && (#[trigger] before[x]).name == name && before[x].class_name
            == Some(class) && before[x].is_method;
    assert(before =~= after.take(before.len() as int));
    assert(after[x] == after.take(before.len() as int)[x]);
    assert(after[x].name == name);
}

/// What starts with a list that starts with another starts with that other.
pub proof fn lemma_prefixes<T>(a: Seq<T>, b: Seq<T>, c: Seq<T>)
    requires
        a.is_prefix_of(b),
        b.is_prefix_of(c),
    ensures
        a.is_prefix_of(c),
{
    assert(a =~= b.take(a.len() as int));
    assert(b =~= c.take(b.len() as int));
    assert forall|x: int| 0 <= x < a.len() implies a[x] == c.take(a.len() as int)[x] by {
        assert(b.take(a.len() as int)[x] == b[x]);
        assert(c.take(b.len() as int)[x] == c[x]);
    }
    assert(a =~= c.take(a.len() as int));
}

/// The names of a class's own tests are those of the test functions in its body.
pub proof fn lemma_own_names(config: ConfigView, body: Seq<StmtView>, name: Seq<char>)
    ensures
        test_names(config, body).contains(name) <==> defines_function(body, name)
            && config.is_test_function(name),
    decreases body.len(),
{
    let names = test_names(config, body);
    if body.len() > 0 {
        let front = body.drop_last();
        let last = body.last();
        let before = test_names(config, front);
        lemma_own_names(config, front, name);
        assert(body[body.len() - 1] == last);
        if names.contains(name) {
            let k = choose|k: int| 0 <= k < names.len() && names[k] == name;
            if k < before.len() {
                assert(before[k] == name);
                assert(defines_function(front, name));
                let m = choose|m: int|
                    0 <= m < front.len() && (#[trigger] front[m]) is FunctionDef
                        && front[m]->FunctionDef_0.name == name;
                assert(body[m] is FunctionDef);
            } else {
                assert(body[body.len() - 1] is FunctionDef);
            }
        }
        if defines_function(body, name) && config.is_test_function(name) {
            let m = choose|m: int|
                0 <= m < body.len() && (#[trigger] body[m]) is FunctionDef
                    && body[m]->FunctionDef_0.name == name;
            if m < front.len() {
                assert(front[m] is FunctionDef);
                let k = choose|k: int| 0 <= k < before.len() && before[k] == name;
                assert(names[k] == name);
            } else {
                assert(names.last() == name);
            }
        }
    }
}

/// Inheriting keeps the tests that are there, and adds one for each method that the class does not
/// have.
pub proof fn lemma_inherited_from_has(
    methods: Seq<MethodView>,
    i: int,
    own: Seq<Seq<char>>,
    class_specs: InfoView,
    class: Seq<char>,
    done: Seq<TestView>,
    name: Seq<char>,
)
    requires
        0 <= i,
    ensures
        done.is_prefix_of(inherited_from(methods, i, own, class_specs, class, done)),
        (exists|x: int| i <= x < methods.len() && (#[trigger] methods[x]).name == name)
            && !own.contains(name) ==> has_test(
            inherited_from(methods, i, own, class_specs, class, done),
            class,
            name,
        ),
    decreases methods.len() - i,
{
    let all = inherited_from(methods, i, own, class_specs, class, done);
    if i < methods.len() {
        if own.contains(methods[i].name) {
            lemma_inherited_from_has(methods, i + 1, own, class_specs, class, done, name);
        } else {
            let test = test_of(
                methods[i].name,
                methods[i].line,
                Some(class),
                combined_expansion(
                    class_specs,
                    methods[i].method_specs,
                ),
            );
            let next = done.push(test);
            lemma_inherited_from_has(methods, i + 1, own, class_specs, class, next, name);
            assert(done =~= next.take(done.len() as int));
            lemma_prefixes(done, next, all);
            if methods[i].name == name {
                assert(next[done.len() as int].name == name);
                assert(has_test(next, class, name));
                lemma_test_is_kept(next, all, class, name);
            }
        }
    } else {
        assert(done =~= done.take(done.len() as int));
    }
}

/// The tests of a class body are added behind those that are there, one for each test function.
pub proof fn lemma_own_tests_have(
    config: ConfigView,
    resolver: Option<ResolverView>,
    class: Seq<char>,
    class_specs: InfoView,
    body: Seq<StmtView>,
    i: int,
    done: Seq<TestView>,
    name: Seq<char>,
)
    requires
        0 <= i,
    ensures
        own_tests_from(config, resolver, class, class_specs, body, i, done) matches Ok(all) ==> {
            &&& done.is_prefix_of(all)
            &&& (exists|k: int|
                i <= k < body.len() && (#[trigger] body[k]) is FunctionDef
                    && body[k]->FunctionDef_0.name == name) && config.is_test_function(name)
                ==> has_test(all, class, name)
        },
    decreases body.len() - i,
{
    if i < body.len() {
        match test_function(config, body[i]) {
            None => {
                lemma_own_tests_have(config, resolver, class, class_specs, body, i + 1, done, name);
            },
            Some(func) => {
                if let Ok(specs) = decorators_info(func.decorators, resolver, Some(class)) {
                    let next = done.push(
                        test_of(
                            func.name,
                            func.offset as nat,
                            Some(class),
                            combined_expansion(class_specs, specs),
                        ),
                    );
                    lemma_own_tests_have(
                        config,
                        resolver,
                        class,
                        class_specs,
                        body,
                        i + 1,
                        next,
                        name,
                    );
                    if let Ok(all) = own_tests_from(
                        config,
                        resolver,
                        class,
                        class_specs,
                        body,
                        i,
                        done,
                    ) {
                        assert(done =~= next.take(done.len() as int));
                        lemma_prefixes(done, next, all);
                        if func.name == name {
                            assert(next[done.len() as int].name == name);
                            assert(has_test(next, class, name));
                            lemma_test_is_kept(next, all, class, name);
                        }
                    }
                }
            },
        }
    } else {
        assert(done =~= done.take(done.len() as int));
    }
}

/// The module that a pass goes over, as the pass sees it.
spec fn target_of(world: WorldView, file: Seq<char>, resolver: ResolverView) -> TargetView {
    TargetView {
        file,
        path: world.path,
        imports: imports_from(world.stmts, 0, seq![]),
        resolver,
    }
}

proof fn lemma_inherited_keeps(
    world: WorldView,
    file: Seq<char>,
    resolver: ResolverView,
    own: Seq<ClassInfoView>,
    tables: TablesView,
    bases: Seq<ExprView>,
    i: int,
    names: Seq<Seq<char>>,
    class_specs: InfoView,
    class: Seq<char>,
    done: Seq<TestView>,
)
    requires
        are_true(world, tables, own),
        0 <= i,
    ensures
        world.pass.inherited(
            target_of(world, file, resolver),
            tables,
            bases,
            i,
            names,
            class_specs,
            class,
            done,
        ) matches Ok((now, tests)) ==> are_true(world, now, own) && done.is_prefix_of(tests),
    decreases bases.len() - i,
{
    let target = target_of(world, file, resolver);
    if i < bases.len() {
        match base_of(bases[i], target.path, target.imports) {
            Ok(Some(base)) => {
                let levels = world.pass.levels(tables);
                lemma_methods_keep(world, tables, own, base, seq![], levels);
                if let Ok((now, found)) = world.pass.base_methods(tables, base, seq![], levels) {
                    let next = match found {
                        Some(methods) => inherited_from(
                            methods,
                            0,
                            names,
                            class_specs,
                            class,
                            done,
                        ),
                        None => done,
                    };
                    if let Some(methods) = found {
                        lemma_inherited_from_has(methods, 0, names, class_specs, class, done, class);
                    } else {
                        assert(done =~= done.take(done.len() as int));
                    }
                    lemma_inherited_keeps(
                        world,
                        file,
                        resolver,
                        own,
                        now,
                        bases,
                        i + 1,
                        names,
                        class_specs,
                        class,
                        next,
                    );
                    if let Ok((_, tests)) = world.pass.inherited(
                        target,
                        tables,
                        bases,
                        i,
                        names,
                        class_specs,
                        class,
                        done,
                    ) {
                        lemma_prefixes(done, next, tests);
                    }
                }
            },
            Ok(None) => {
                lemma_inherited_keeps(
                    world,
                    file,
                    resolver,
                    own,
                    tables,
                    bases,
                    i + 1,
                    names,
                    class_specs,
                    class,
                    done,
                );
            },
            Err(_) => {},
        }
    } else {
        assert(done =~= done.take(done.len() as int));
    }
}

proof fn lemma_inherited_has(
    world: WorldView,
    file: Seq<char>,
    resolver: ResolverView,
    own: Seq<ClassInfoView>,
    tables: TablesView,
    bases: Seq<ExprView>,
    i: int,
    names: Seq<Seq<char>>,
    class_specs: InfoView,
    class: Seq<char>,
    done: Seq<TestView>,
    k: int,
    base_path: Seq<Seq<char>>,
    base_name: Seq<char>,
    method: Seq<char>,
    depth: nat,
)
    requires
        are_true(world, tables, own),
        is_own(world, resolver, own),
        load_from(world.pass.loads, world.path, 0) is None,
        0 <= i <= k < bases.len(),
        refers(bases[k], world.path, world.stmts, base_path, base_name),
        !is_stdlib_path(base_path),
        has_method(world, base_path, base_name, method, depth),
        world.pass.config.is_test_function(method),
        !names.contains(method),
    ensures
        world.pass.inherited(
            target_of(world, file, resolver),
            tables,
            bases,
            i,
            names,
            class_specs,
            class,
            done,
        ) matches Ok((_, tests)) ==> has_test(tests, class, method),
    decreases k - i,
{
    let target = target_of(world, file, resolver);
    let levels = world.pass.levels(tables);
    if let Ok((_, tests)) = world.pass.inherited(
        target,
        tables,
        bases,
        i,
        names,
        class_specs,
        class,
        done,
    ) {
        match base_of(bases[i], target.path, target.imports) {
            Ok(Some(base)) => {
                lemma_methods_keep(world, tables, own, base, seq![], levels);
                let (now, found) = world.pass.base_methods(tables, base, seq![], levels)->Ok_0;
                let next = match found {
                    Some(methods) => inherited_from(methods, 0, names, class_specs, class, done),
                    None => done,
                };
                if i < k {
                    lemma_inherited_has(
                        world,
                        file,
                        resolver,
                        own,
                        now,
                        bases,
                        i + 1,
                        names,
                        class_specs,
                        class,
                        next,
                        k,
                        base_path,
                        base_name,
                        method,
                        depth,
                    );
                } else {
                    lemma_base_is_found(
                        bases[k],
                        world.path,
                        world.stmts,
                        base_path,
                        base_name,
                    );
                    lemma_base_gives_method(
                        world,
                        resolver,
                        own,
                        tables,
                        base,
                        seq![],
                        levels,
                        method,
                        depth,
                    );
                    lemma_inherited_from_has(
                        found->0,
                        0,
                        names,
                        class_specs,
                        class,
                        done,
                        method,
                    );
                    lemma_inherited_keeps(
                        world,
                        file,
                        resolver,
                        own,
                        now,
                        bases,
                        i + 1,
                        names,
                        class_specs,
                        class,
                        next,
                    );
                    lemma_test_is_kept(next, tests, class, method);
                }
            },
            _ => {
                if i < k {
                    lemma_inherited_has(
                        world,
                        file,
                        resolver,
                        own,
                        tables,
                        bases,
                        i + 1,
                        names,
                        class_specs,
                        class,
                        done,
                        k,
                        base_path,
                        base_name,
                        method,
                        depth,
                    );
                } else {
                    lemma_base_is_found(
                        bases[k],
                        world.path,
                        world.stmts,
                        base_path,
                        base_name,
                    );
                }
            },
        }
    }
}

proof fn lemma_bases_init_keeps(
    world: WorldView,
    file: Seq<char>,
    resolver: ResolverView,
    own: Seq<ClassInfoView>,
    tables: TablesView,
    bases: Seq<ExprView>,
    i: int,
)
    requires
        are_true(world, tables, own),
    ensures
        world.pass.bases_have_init(
            target_of(world, file, resolver),
            tables,
            bases,
            i,
        ) matches Ok((now, _)) ==> are_true(world, now, own),
    decreases bases.len() - i,
{
    let target = target_of(world, file, resolver);
    if 0 <= i < bases.len() {
        match base_of(bases[i], target.path, target.imports) {
            Ok(None) => {
                lemma_bases_init_keeps(world, file, resolver, own, tables, bases, i + 1);
            },
            Ok(Some(base)) => {
                let levels = world.pass.levels(tables);
                lemma_init_keeps(world, tables, own, base, seq![], levels);
                if let Ok((now, false)) = world.pass.base_has_init(tables, base, seq![], levels) {
                    lemma_bases_init_keeps(world, file, resolver, own, now, bases, i + 1);
                }
            },
            Err(_) => {},
        }
    }
}

proof fn lemma_class_keeps(
    world: WorldView,
    file: Seq<char>,
    resolver: ResolverView,
    own: Seq<ClassInfoView>,
    progress: ProgressView,
    class: ClassView,
)
    requires
        are_true(world, progress.tables, own),
    ensures
        world.pass.after_class(target_of(world, file, resolver), progress, class) matches Ok(next)
            ==> {
            &&& are_true(world, next.tables, own)
            &&& progress.tests.is_prefix_of(next.tests)
            &&& progress.warnings.is_prefix_of(next.warnings)
        },
{
    let target = target_of(world, file, resolver);
    let config = world.pass.config;
    assert(progress.tests =~= progress.tests.take(progress.tests.len() as int));
    assert(progress.warnings =~= progress.warnings.take(progress.warnings.len() as int));
    if config.is_test_class(class.name) {
        lemma_bases_init_keeps(
            world,
            file,
            resolver,
            own,
            progress.tables,
            base_exprs(class),
            0,
        );
        match world.pass.skips(target, progress.tables, class) {
            Ok((tables, true)) => {
                let more = progress.warnings.push(init_warning(file, class));
                assert(progress.warnings =~= more.take(progress.warnings.len() as int));
            },
            Ok((tables, false)) => {
                if let Ok(class_specs) = decorators_info(
                    class.decorators,
                    Some(resolver),
                    Some(class.name),
                ) {
                    let names = test_names(config, class.body);
                    lemma_inherited_keeps(
                        world,
                        file,
                        resolver,
                        own,
                        tables,
                        base_exprs(class),
                        0,
                        names,
                        class_specs,
                        class.name,
                        progress.tests,
                    );
                    if let Ok((now, tests)) = world.pass.inherited(
                        target,
                        tables,
                        base_exprs(class),
                        0,
                        names,
                        class_specs,
                        class.name,
                        progress.tests,
                    ) {
                        lemma_own_tests_have(
                            config,
                            Some(resolver),
                            class.name,
                            class_specs,
                            class.body,
                            0,
                            tests,
                            class.name,
                        );
                        if let Ok(all) = own_tests_from(
                            config,
                            Some(resolver),
                            class.name,
                            class_specs,
                            class.body,
                            0,
                            tests,
                        ) {
                            lemma_prefixes(progress.tests, tests, all);
                        }
                    }
                }
            },
            Err(_) => {},
        }
    }
}

/// The class defines the method, or inherits it over `depth` levels at most.
pub open spec fn has_or_inherits(
    world: WorldView,
    class: ClassView,
    method: Seq<char>,
    depth: nat,
) -> bool {
    ||| defines_function(class.body, method)
    ||| exists|k: int, base: Seq<Seq<char>>, name: Seq<char>| #[trigger]
        is_base(world.path, world.stmts, class, k, base, name) && has_method(
            world,
            base,
            name,
            method,
            depth,
        )
}

proof fn lemma_class_has(
    world: WorldView,
    file: Seq<char>,
    resolver: ResolverView,
    own: Seq<ClassInfoView>,
    progress: ProgressView,
    class: ClassView,
    method: Seq<char>,
    depth: nat,
)
    requires
        are_true(world, progress.tables, own),
        is_own(world, resolver, own),
        load_from(world.pass.loads, world.path, 0) is None,
        world.pass.config.is_test_class(class.name),
        world.pass.config.is_test_function(method),
        has_or_inherits(world, class, method, depth),
    ensures
        world.pass.after_class(target_of(world, file, resolver), progress, class) matches Ok(next)
            ==> has_test(next.tests, class.name, method) || next.warnings.contains(
            init_warning(file, class),
        ),
{
    let target = target_of(world, file, resolver);
    let config = world.pass.config;
    if let Ok(next) = world.pass.after_class(target, progress, class) {
        let (tables, skipped) = world.pass.skips(target, progress.tables, class)->Ok_0;
        if skipped {
            assert(next.warnings.last() == init_warning(file, class));
        } else {
            let class_specs = decorators_info(
                class.decorators,
                Some(resolver),
                Some(class.name),
            )->Ok_0;
            let names = test_names(config, class.body);
            let bases = base_exprs(class);
            let (_, tests) = world.pass.inherited(
                target,
                tables,
                bases,
                0,
                names,
                class_specs,
                class.name,
                progress.tests,
            )->Ok_0;
            lemma_bases_init_keeps(world, file, resolver, own, progress.tables, bases, 0);
            lemma_own_names(config, class.body, method);
            lemma_own_tests_have(
                config,
                Some(resolver),
                class.name,
                class_specs,
                class.body,
                0,
                tests,
                method,
            );
            if !defines_function(class.body, method) {
                let (k, base, name) = choose|k: int, base: Seq<Seq<char>>, name: Seq<char>|
                    #[trigger]
                    is_base(world.path, world.stmts, class, k, base, name) && has_method(
                        world,
                        base,
                        name,
                        method,
                        depth,
                    );
                lemma_inherited_has(
                    world,
                    file,
                    resolver,
                    own,
                    tables,
                    bases,
                    0,
                    names,
                    class_specs,
                    class.name,
                    progress.tests,
                    k,
                    base,
                    name,
                    method,
                    depth,
                );
                lemma_test_is_kept(tests, next.tests, class.name, method);
            }
        }
    }
}

proof fn lemma_classes_have(
    world: WorldView,
    file: Seq<char>,
    resolver: ResolverView,
    own: Seq<ClassInfoView>,
    i: int,
    progress: ProgressView,
    j: int,
    method: Seq<char>,
    depth: nat,
)
    requires
        are_true(world, progress.tables, own),
        is_own(world, resolver, own),
        load_from(world.pass.loads, world.path, 0) is None,
        0 <= i,
    ensures
        world.pass.classes_from(
            target_of(world, file, resolver),
            world.stmts,
            i,
            progress,
        ) matches Ok(end) ==> {
            &&& progress.tests.is_prefix_of(end.tests)
            &&& progress.warnings.is_prefix_of(end.warnings)
            &&& i <= j < world.stmts.len() && world.stmts[j] is ClassDef
                && world.pass.config.is_test_class(world.stmts[j]->ClassDef_0.name)
                && world.pass.config.is_test_function(method) && has_or_inherits(
                world,
                world.stmts[j]->ClassDef_0,
                method,
                depth,
            ) ==> has_test(end.tests, world.stmts[j]->ClassDef_0.name, method)
                || end.warnings.contains(init_warning(file, world.stmts[j]->ClassDef_0))
        },
    decreases world.stmts.len() - i,
{
    let target = target_of(world, file, resolver);
    assert(progress.tests =~= progress.tests.take(progress.tests.len() as int));
    assert(progress.warnings =~= progress.warnings.take(progress.warnings.len() as int));
    if i < world.stmts.len() {
        if let Ok(end) = world.pass.classes_from(target, world.stmts, i, progress) {
            match world.stmts[i] {
                StmtView::ClassDef(class) => {
                    let next = world.pass.after_class(target, progress, class)->Ok_0;
                    lemma_class_keeps(world, file, resolver, own, progress, class);
                    lemma_classes_have(world, file, resolver, own, i + 1, next, j, method, depth);
                    lemma_prefixes(progress.tests, next.tests, end.tests);
                    lemma_prefixes(progress.warnings, next.warnings, end.warnings);
                    if i == j && world.pass.config.is_test_class(class.name)
                        && world.pass.config.is_test_function(method) && has_or_inherits(
                        world,
                        class,
                        method,
                        depth,
                    ) {
                        lemma_class_has(
                            world,
                            file,
                            resolver,
                            own,
                            progress,
                            class,
                            method,
                            depth,
                        );
                        if has_test(next.tests, class.name, method) {
                            lemma_test_is_kept(next.tests, end.tests, class.name, method);
                        } else {
                            let w = init_warning(file, class);
                            let x = choose|x: int|
                                0 <= x < next.warnings.len() && next.warnings[x] == w;
                            assert(next.warnings =~= end.warnings.take(next.warnings.len() as int));
                            assert(end.warnings.take(next.warnings.len() as int)[x]
                                == end.warnings[x]);
                        }
                    }
                },
                _ => {
                    lemma_classes_have(
                        world,
                        file,
                        resolver,
                        own,
                        i + 1,
                        progress,
                        j,
                        method,
                        depth,
                    );
                },
            }
        }
    }
}

proof fn lemma_result_has(
    world: WorldView,
    file: Seq<char>,
    resolver: ResolverView,
    j: int,
    method: Seq<char>,
    depth: nat,
)
    requires
        forall|l: int|
            0 <= l < world.pass.loads.len() ==> (#[trigger] world.pass.loads[l]).path != world.path,
        0 <= j < world.stmts.len(),
        world.stmts[j] is ClassDef,
        world.pass.config.is_test_class(world.stmts[j]->ClassDef_0.name),
        world.pass.config.is_test_function(method),
        has_or_inherits(world, world.stmts[j]->ClassDef_0, method, depth),
    ensures
        world.pass.result(file, world.path, world.stmts, resolver) matches Ok((tests, warnings))
            ==> has_test(tests, world.stmts[j]->ClassDef_0.name, method) || warnings.contains(
            init_warning(file, world.stmts[j]->ClassDef_0),
        ),
{
    if let Ok((tests, warnings)) = world.pass.result(file, world.path, world.stmts, resolver) {
        let own = class_infos_from(
            world.pass.config,
            Some(resolver),
            true,
            world.stmts,
            0,
            world.path,
            imports_from(world.stmts, 0, seq![]),
            seq![],
        )->Ok_0;
        let target = target_of(world, file, resolver);
        let first = world.pass.functions_from(target, world.stmts, 0, seq![])->Ok_0;
        let tables = TablesView { own_path: world.path, own, loaded: seq![] };
        let progress = ProgressView { tables, tests: first, warnings: seq![] };
        assert(are_true(world, tables, own)) by {
            reveal(are_true);
        }
        lemma_no_load(world.pass.loads, world.path, 0);
        lemma_classes_have(world, file, resolver, own, 0, progress, j, method, depth);
    }
}

proof fn lemma_no_load(loads: Seq<LoadView>, path: Seq<Seq<char>>, i: int)
    requires
        0 <= i,
        forall|l: int| 0 <= l < loads.len() ==> (#[trigger] loads[l]).path != path,
    ensures
        load_from(loads, path, i) is None,
    decreases loads.len() - i,
{
    if i < loads.len() {
        assert(loads[i].path != path);
        lemma_no_load(loads, path, i + 1);
    }
}

proof fn lemma_outcome_is_a_result(
    pass: PassView,
    file: Seq<char>,
    path: Seq<Seq<char>>,
    stmts: Seq<StmtView>,
    resolver: ResolverView,
    fuel: nat,
) -> (used: ResolverView)
    ensures
        pass.outcome(file, path, stmts, resolver, fuel) matches Ok(
            DiscoveryView::Found(tests, warnings),
        ) ==> pass.result(file, path, stmts, used) == Ok::<
            (Seq<TestView>, Seq<WarningView>),
            StopView,
        >((tests, warnings)),
    decreases fuel,
{
    match pass.result(file, path, stmts, resolver) {
        Err(StopView::Constants(needed)) => match load_from(pass.loads, needed, 0) {
            Some(result) if fuel > 0 => lemma_outcome_is_a_result(
                pass,
                file,
                path,
                stmts,
                resolver.with_module(needed, constants_of(result)),
                (fuel - 1) as nat,
            ),
            _ => resolver,
        },
        _ => resolver,
    }
}

/// A test class has the tests that it defines and those that it inherits: from a base class of its
/// own module, from one that is imported, or from one of an imported module (`module.Base`), and
/// from what these inherit in turn, over any number of levels. The exception is a class that is not
/// collected for a constructor, of which there is a warning.
pub proof fn lemma_inherited_tests_are_found(
    world: WorldView,
    file: Seq<char>,
    j: int,
    method: Seq<char>,
    depth: nat,
    tests: Seq<TestView>,
    warnings: Seq<WarningView>,
)
    requires
        forall|l: int|
            0 <= l < world.pass.loads.len() ==> (#[trigger] world.pass.loads[l]).path != world.path,
        0 <= j < world.stmts.len(),
        world.stmts[j] is ClassDef,
        world.pass.config.is_test_class(world.stmts[j]->ClassDef_0.name),
        world.pass.config.is_test_function(method),
        has_or_inherits(world, world.stmts[j]->ClassDef_0, method, depth),
        world.pass.discovered(file, world.path, world.stmts) == Ok::<DiscoveryView, ErrorView>(
            DiscoveryView::Found(tests, warnings),
        ),
    ensures
        has_test(tests, world.stmts[j]->ClassDef_0.name, method) || warnings.contains(
            init_warning(file, world.stmts[j]->ClassDef_0),
        ),
{
    let (resolver, needed) = prepared(
        fresh_resolver(world.stmts, world.path, true),
        world.pass.loads,
        world.pass.loads.len(),
    );
    let used = lemma_outcome_is_a_result(
        world.pass,
        file,
        world.path,
        world.stmts,
        resolver,
        world.pass.loads.len(),
    );
    lemma_result_has(world, file, used, j, method, depth);
}

// ---------------------------------------------------------------------------------------------
// Constructors
// ---------------------------------------------------------------------------------------------
/// None of the classes that the statements define has a constructor.
pub open spec fn without_constructors(stmts: Seq<StmtView>) -> bool {
    forall|j: int|
        0 <= j < stmts.len() && (#[trigger] stmts[j]) is ClassDef ==> !defines_function(
            stmts[j]->ClassDef_0.body,
            "__init__"@,
        )
}

/// A class has a constructor where its body defines a function called `__init__`.
pub proof fn lemma_constructor(class: ClassView)
    ensures
        has_init(class) == defines_function(class.body, "__init__"@),
{
    if has_init(class) {
        let i = choose|i: int|
            0 <= i < class.body.len() && defines_init(
                #[trigger] class.body[i],
            );
        assert(class.body[i] is FunctionDef);
    }
    if defines_function(class.body, "__init__"@) {
        let k = choose|k: int|
            0 <= k < class.body.len() && (#[trigger] class.body[k]) is FunctionDef
                && class.body[k]->FunctionDef_0.name == "__init__"@;
        assert(defines_init(class.body[k]));
    }
}

spec fn all_plain(classes: Seq<ClassInfoView>) -> bool {
    forall|c: int| 0 <= c < classes.len() ==> !(#[trigger] classes[c]).has_init
}

/// No class in the tables has a constructor.
#[verifier::opaque]
spec fn is_plain(tables: TablesView) -> bool {
    all_plain(tables.own) && forall|k: int|
        0 <= k < tables.loaded.len() ==> all_plain((#[trigger] tables.loaded[k]).classes)
}

proof fn lemma_plain_infos(
    config: ConfigView,
    resolver: Option<ResolverView>,
    tests_only: bool,
    stmts: Seq<StmtView>,
    i: int,
    current: Seq<Seq<char>>,
    imports: Seq<(Seq<char>, BindingView)>,
    done: Seq<ClassInfoView>,
)
    requires
        0 <= i,
        without_constructors(stmts),
        all_plain(done),
    ensures
        class_infos_from(config, resolver, tests_only, stmts, i, current, imports, done) matches Ok(
            classes,
        ) ==> all_plain(classes),
    decreases stmts.len() - i,
{
    if i < stmts.len() {
        match stmts[i] {
            StmtView::ClassDef(class) if !tests_only || config.is_test_class(class.name) => {
                if let Ok(info) = class_info(config, resolver, class, current, imports) {
                    assert(stmts[i] is ClassDef);
                    lemma_constructor(class);
                    let next = done.push(info);
                    assert forall|c: int| 0 <= c < next.len() implies !(
                    #[trigger] next[c]).has_init by {
                        if c < done.len() {
                            assert(next[c] == done[c]);
                        }
                    }
                    lemma_plain_infos(
                        config,
                        resolver,
                        tests_only,
                        stmts,
                        i + 1,
                        current,
                        imports,
                        next,
                    );
                }
            },
            _ => {
                lemma_plain_infos(
                    config,
                    resolver,
                    tests_only,
                    stmts,
                    i + 1,
                    current,
                    imports,
                    done,
                );
            },
        }
    }
}

proof fn lemma_plain_named(classes: Seq<ClassInfoView>, name: Seq<char>)
    requires
        all_plain(classes),
    ensures
        last_named(classes, name) matches Some(info) ==> !info.has_init,
    decreases classes.len(),
{
    if classes.len() > 0 {
        let front = classes.drop_last();
        assert(!classes[classes.len() - 1].has_init);
        assert forall|c: int| 0 <= c < front.len() implies !(#[trigger] front[c]).has_init by {
            assert(front[c] == classes[c]);
        }
        lemma_plain_named(front, name);
    }
}

proof fn lemma_plain_loaded(list: Seq<LoadedView>, path: Seq<Seq<char>>, i: int)
    requires
        0 <= i,
        forall|k: int| 0 <= k < list.len() ==> all_plain((#[trigger] list[k]).classes),
    ensures
        loaded_from(list, path, i) matches Some(classes) ==> all_plain(classes),
    decreases list.len() - i,
{
    if i < list.len() {
        assert(all_plain(list[i].classes));
        lemma_plain_loaded(list, path, i + 1);
    }
}

/// None of the modules that were loaded defines a class with a constructor.
pub open spec fn loads_without_constructors(loads: Seq<LoadView>) -> bool {
    forall|l: int|
        0 <= l < loads.len() ==> match (#[trigger] loads[l]).result {
            Ok(stmts) => without_constructors(stmts),
            Err(_) => true,
        }
}

proof fn lemma_load_without_constructors(loads: Seq<LoadView>, path: Seq<Seq<char>>, i: int)
    requires
        0 <= i,
        loads_without_constructors(loads),
    ensures
        load_from(loads, path, i) matches Some(Ok(stmts)) ==> without_constructors(stmts),
    decreases loads.len() - i,
{
    if i < loads.len() {
        assert(loads[i].result is Ok ==> without_constructors(loads[i].result->Ok_0));
        lemma_load_without_constructors(loads, path, i + 1);
    }
}

proof fn lemma_plain_entered(pass: PassView, tables: TablesView, base: BaseView)
    requires
        loads_without_constructors(pass.loads),
        is_plain(tables),
    ensures
        pass.entered(tables, base) matches Ok(now) ==> is_plain(now) && (now.class(
            base.mod_path,
            base.class_name,
        ) matches Some(info) ==> !info.has_init),
{
    reveal(is_plain);
    let path = base.mod_path;
    if let Ok(now) = pass.entered(tables, base) {
        if !base.is_local && loaded_from(tables.loaded, path, 0) is None {
            lemma_load_without_constructors(pass.loads, path, 0);
            if let Some(Ok(stmts)) = load_from(pass.loads, path, 0) {
                lemma_plain_infos(
                    pass.config,
                    Some(local_resolver(stmts)),
                    false,
                    stmts,
                    0,
                    path,
                    imports_from(stmts, 0, seq![]),
                    seq![],
                );
            }
            assert forall|k: int| 0 <= k < now.loaded.len() implies all_plain(
                (#[trigger] now.loaded[k]).classes,
            ) by {
                if k < tables.loaded.len() {
                    assert(now.loaded[k] == tables.loaded[k]);
                }
            }
        }
        lemma_plain_loaded(now.loaded, path, 0);
        if let Some(classes) = loaded_from(now.loaded, path, 0) {
            lemma_plain_named(classes, base.class_name);
        }
        lemma_plain_named(now.own, base.class_name);
    }
}

proof fn lemma_plain_base(
    pass: PassView,
    tables: TablesView,
    base: BaseView,
    visited: Seq<ClassKey>,
    fuel: nat,
)
    requires
        loads_without_constructors(pass.loads),
        is_plain(tables),
    ensures
        pass.base_has_init(tables, base, visited, fuel) matches Ok((now, found)) ==> !found
            && is_plain(now),
    decreases fuel, 0int, 0int,
{
    let key = (base.mod_path, base.class_name);
    if !is_stdlib_path(base.mod_path) && !visited.contains(key) && fuel > 0 {
        lemma_plain_entered(pass, tables, base);
        if let Ok(now) = pass.entered(tables, base) {
            if let Some(info) = now.class(base.mod_path, base.class_name) {
                lemma_plain_bases(
                    pass,
                    now,
                    info.base_classes,
                    0,
                    visited.push(key),
                    (fuel - 1) as nat,
                );
            }
        }
    }
}

proof fn lemma_plain_bases(
    pass: PassView,
    tables: TablesView,
    bases: Seq<BaseView>,
    i: int,
    visited: Seq<ClassKey>,
    fuel: nat,
)
    requires
        loads_without_constructors(pass.loads),
        is_plain(tables),
    ensures
        pass.any_has_init(tables, bases, i, visited, fuel) matches Ok((now, found)) ==> !found
            && is_plain(now),
    decreases fuel, 1int, bases.len() - i,
{
    if 0 <= i < bases.len() {
        lemma_plain_base(pass, tables, bases[i], visited, fuel);
        if let Ok((now, false)) = pass.base_has_init(tables, bases[i], visited, fuel) {
            lemma_plain_bases(pass, now, bases, i + 1, visited, fuel);
        }
    }
}

proof fn lemma_plain_methods(
    pass: PassView,
    tables: TablesView,
    base: BaseView,
    visited: Seq<ClassKey>,
    fuel: nat,
)
    requires
        loads_without_constructors(pass.loads),
        is_plain(tables),
    ensures
        pass.base_methods(tables, base, visited, fuel) matches Ok((now, _)) ==> is_plain(now),
    decreases fuel, 0int, 0int,
{
    let key = (base.mod_path, base.class_name);
    if !is_stdlib_path(base.mod_path) && !visited.contains(key) && fuel > 0 {
        lemma_plain_entered(pass, tables, base);
        if let Ok(now) = pass.entered(tables, base) {
            if let Some(info) = now.class(base.mod_path, base.class_name) {
                lemma_plain_all_methods(
                    pass,
                    now,
                    info.base_classes,
                    0,
                    visited.push(key),
                    seq![],
                    (fuel - 1) as nat,
                );
            }
        }
    }
}

proof fn lemma_plain_all_methods(
    pass: PassView,
    tables: TablesView,
    bases: Seq<BaseView>,
    i: int,
    visited: Seq<ClassKey>,
    done: Seq<MethodView>,
    fuel: nat,
)
    requires
        loads_without_constructors(pass.loads),
        is_plain(tables),
    ensures
        pass.all_methods(tables, bases, i, visited, done, fuel) matches Ok((now, _)) ==> is_plain(
            now,
        ),
    decreases fuel, 1int, bases.len() - i,
{
    if 0 <= i < bases.len() {
        lemma_plain_methods(pass, tables, bases[i], visited, fuel);
        if let Ok((now, found)) = pass.base_methods(tables, bases[i], visited, fuel) {
            let next = match found {
                Some(methods) => done + methods,
                None => done,
            };
            lemma_plain_all_methods(pass, now, bases, i + 1, visited, next, fuel);
        }
    }
}

proof fn lemma_plain_bases_of_class(
    pass: PassView,
    target: TargetView,
    tables: TablesView,
    bases: Seq<ExprView>,
    i: int,
)
    requires
        loads_without_constructors(pass.loads),
        is_plain(tables),
    ensures
        pass.bases_have_init(target, tables, bases, i) matches Ok((now, found)) ==> !found
            && is_plain(now),
    decreases bases.len() - i,
{
    if 0 <= i < bases.len() {
        match base_of(bases[i], target.path, target.imports) {
            Ok(None) => {
                lemma_plain_bases_of_class(pass, target, tables, bases, i + 1);
            },
            Ok(Some(base)) => {
                let levels = pass.levels(tables);
                lemma_plain_base(pass, tables, base, seq![], levels);
                if let Ok((now, false)) = pass.base_has_init(tables, base, seq![], levels) {
                    lemma_plain_bases_of_class(pass, target, now, bases, i + 1);
                }
            },
            Err(_) => {},
        }
    }
}

proof fn lemma_plain_inherited(
    pass: PassView,
    target: TargetView,
    tables: TablesView,
    bases: Seq<ExprView>,
    i: int,
    own: Seq<Seq<char>>,
    class_specs: InfoView,
    class: Seq<char>,
    done: Seq<TestView>,
)
    requires
        loads_without_constructors(pass.loads),
        is_plain(tables),
    ensures
        pass.inherited(target, tables, bases, i, own, class_specs, class, done) matches Ok((now, _))
            ==> is_plain(now),
    decreases bases.len() - i,
{
    if 0 <= i < bases.len() {
        match base_of(bases[i], target.path, target.imports) {
            Ok(None) => {
                lemma_plain_inherited(
                    pass,
                    target,
                    tables,
                    bases,
                    i + 1,
                    own,
                    class_specs,
                    class,
                    done,
                );
            },
            Ok(Some(base)) => {
                let levels = pass.levels(tables);
                lemma_plain_methods(pass, tables, base, seq![], levels);
                if let Ok((now, found)) = pass.base_methods(tables, base, seq![], levels) {
                    let next = match found {
                        Some(methods) => inherited_from(
                            methods,
                            0,
                            own,
                            class_specs,
                            class,
                            done,
                        ),
                        None => done,
                    };
                    lemma_plain_inherited(
                        pass,
                        target,
                        now,
                        bases,
                        i + 1,
                        own,
                        class_specs,
                        class,
                        next,
                    );
                }
            },
            Err(_) => {},
        }
    }
}

proof fn lemma_plain_classes(
    pass: PassView,
    target: TargetView,
    stmts: Seq<StmtView>,
    i: int,
    progress: ProgressView,
)
    requires
        0 <= i,
        loads_without_constructors(pass.loads),
        without_constructors(stmts),
        is_plain(progress.tables),
    ensures
        pass.classes_from(target, stmts, i, progress) matches Ok(end) ==> end.warnings
            == progress.warnings,
    decreases stmts.len() - i,
{
    if i < stmts.len() {
        match stmts[i] {
            StmtView::ClassDef(class) => {
                assert(stmts[i] is ClassDef);
                lemma_constructor(class);
                lemma_plain_bases_of_class(pass, target, progress.tables, base_exprs(class), 0);
                if let Ok((tables, _)) = pass.skips(target, progress.tables, class) {
                    if let Ok(class_specs) = decorators_info(
                        class.decorators,
                        Some(target.resolver),
                        Some(class.name),
                    ) {
                        lemma_plain_inherited(
                            pass,
                            target,
                            tables,
                            base_exprs(class),
                            0,
                            test_names(pass.config, class.body),
                            class_specs,
                            class.name,
                            progress.tests,
                        );
                    }
                }
                if let Ok(next) = pass.after_class(target, progress, class) {
                    lemma_plain_classes(pass, target, stmts, i + 1, next);
                }
            },
            _ => {
                lemma_plain_classes(pass, target, stmts, i + 1, progress);
            },
        }
    }
}

/// Where no class has a constructor, there are no warnings of classes that are not collected.
pub proof fn lemma_no_constructor_no_warning(
    world: WorldView,
    file: Seq<char>,
    tests: Seq<TestView>,
    warnings: Seq<WarningView>,
)
    requires
        without_constructors(world.stmts),
        loads_without_constructors(world.pass.loads),
        world.pass.discovered(file, world.path, world.stmts) == Ok::<DiscoveryView, ErrorView>(
            DiscoveryView::Found(tests, warnings),
        ),
    ensures
        warnings.len() == 0,
{
    let (first, needed) = prepared(
        fresh_resolver(world.stmts, world.path, true),
        world.pass.loads,
        world.pass.loads.len(),
    );
    let resolver = lemma_outcome_is_a_result(
        world.pass,
        file,
        world.path,
        world.stmts,
        first,
        world.pass.loads.len(),
    );
    let imports = imports_from(world.stmts, 0, seq![]);
    let target = target_of(world, file, resolver);
    lemma_plain_infos(
        world.pass.config,
        Some(resolver),
        true,
        world.stmts,
        0,
        world.path,
        imports,
        seq![],
    );
    let own = class_infos_from(
        world.pass.config,
        Some(resolver),
        true,
        world.stmts,
        0,
        world.path,
        imports,
        seq![],
    )->Ok_0;
    let functions = world.pass.functions_from(target, world.stmts, 0, seq![])->Ok_0;
    let tables = TablesView { own_path: world.path, own, loaded: seq![] };
    assert(is_plain(tables)) by {
        reveal(is_plain);
    }
    lemma_plain_classes(
        world.pass,
        target,
        world.stmts,
        0,
        ProgressView { tables, tests: functions, warnings: seq![] },
    );
}

/// The class has a constructor, or one of its base classes has.
pub open spec fn is_constructed(world: WorldView, class: ClassView) -> bool {
    ||| defines_function(class.body, "__init__"@)
    ||| exists|
        k: int,
        base: Seq<Seq<char>>,
        name: Seq<char>,
        stmts: Seq<StmtView>,
        j: int,
    |
        {
            &&& #[trigger] is_base(world.path, world.stmts, class, k, base, name)
            &&& #[trigger] is_defined_at(world, base, name, stmts, j)
            &&& defines_function(stmts[j]->ClassDef_0.body, "__init__"@)
        }
}

proof fn lemma_constructor_is_found(
    world: WorldView,
    file: Seq<char>,
    resolver: ResolverView,
    own: Seq<ClassInfoView>,
    tables: TablesView,
    bases: Seq<ExprView>,
    i: int,
    k: int,
    base_path: Seq<Seq<char>>,
    name: Seq<char>,
    stmts: Seq<StmtView>,
    j: int,
)
    requires
        are_true(world, tables, own),
        is_own(world, resolver, own),
        load_from(world.pass.loads, world.path, 0) is None,
        0 <= i <= k < bases.len(),
        refers(bases[k], world.path, world.stmts, base_path, name),
        !is_stdlib_path(base_path),
        is_defined_at(world, base_path, name, stmts, j),
        defines_function(stmts[j]->ClassDef_0.body, "__init__"@),
    ensures
        world.pass.bases_have_init(
            target_of(world, file, resolver),
            tables,
            bases,
            i,
        ) matches Ok((_, found)) ==> found,
    decreases k - i,
{
    let target = target_of(world, file, resolver);
    let levels = world.pass.levels(tables);
    lemma_base_is_found(bases[k], world.path, world.stmts, base_path, name);
    match base_of(bases[i], target.path, target.imports) {
        Ok(Some(base)) => {
            if i < k {
                lemma_init_keeps(world, tables, own, base, seq![], levels);
                if let Ok((now, false)) = world.pass.base_has_init(tables, base, seq![], levels) {
                    lemma_constructor_is_found(
                        world,
                        file,
                        resolver,
                        own,
                        now,
                        bases,
                        i + 1,
                        k,
                        base_path,
                        name,
                        stmts,
                        j,
                    );
                }
            } else {
                assert(!Seq::<ClassKey>::empty().contains((base.mod_path, base.class_name)));
                assert(levels > 0);
                lemma_entered(world, tables, own, base);
                if let Ok(now) = world.pass.entered(tables, base) {
                    let r = lemma_class_is_known(
                        world,
                        resolver,
                        own,
                        now,
                        base_path,
                        name,
                        stmts,
                        j,
                    );
                    lemma_constructor(stmts[j]->ClassDef_0);
                    assert(world.pass.base_has_init(tables, base, seq![], levels) == Ok::<
                        (TablesView, bool),
                        StopView,
                    >((now, true)));
                }
            }
        },
        _ => {
            if i < k {
                lemma_constructor_is_found(
                    world,
                    file,
                    resolver,
                    own,
                    tables,
                    bases,
                    i + 1,
                    k,
                    base_path,
                    name,
                    stmts,
                    j,
                );
            }
        },
    }
}

proof fn lemma_constructed_is_skipped(
    world: WorldView,
    file: Seq<char>,
    resolver: ResolverView,
    own: Seq<ClassInfoView>,
    progress: ProgressView,
    class: ClassView,
)
    requires
        are_true(world, progress.tables, own),
        is_own(world, resolver, own),
        load_from(world.pass.loads, world.path, 0) is None,
        world.pass.config.is_test_class(class.name),
        is_constructed(world, class),
    ensures
        world.pass.after_class(target_of(world, file, resolver), progress, class) matches Ok(next)
            ==> next.tests == progress.tests && next.warnings == progress.warnings.push(
            init_warning(file, class),
        ),
{
    lemma_constructor(class);
    if !defines_function(class.body, "__init__"@) {
        let (k, base, name, stmts, j) = choose|
            k: int,
            base: Seq<Seq<char>>,
            name: Seq<char>,
            stmts: Seq<StmtView>,
            j: int,
        |
            {
                &&& #[trigger] is_base(world.path, world.stmts, class, k, base, name)
                &&& #[trigger] is_defined_at(world, base, name, stmts, j)
                &&& defines_function(stmts[j]->ClassDef_0.body, "__init__"@)
            };
        lemma_constructor_is_found(
            world,
            file,
            resolver,
            own,
            progress.tables,
            base_exprs(class),
            0,
            k,
            base,
            name,
            stmts,
            j,
        );
    }
}

proof fn lemma_constructed_classes(
    world: WorldView,
    file: Seq<char>,
    resolver: ResolverView,
    own: Seq<ClassInfoView>,
    i: int,
    progress: ProgressView,
    j: int,
)
    requires
        are_true(world, progress.tables, own),
        is_own(world, resolver, own),
        load_from(world.pass.loads, world.path, 0) is None,
        0 <= i <= j < world.stmts.len(),
        world.stmts[j] is ClassDef,
        world.pass.config.is_test_class(world.stmts[j]->ClassDef_0.name),
        is_constructed(world, world.stmts[j]->ClassDef_0),
    ensures
        world.pass.classes_from(
            target_of(world, file, resolver),
            world.stmts,
            i,
            progress,
        ) matches Ok(end) ==> end.warnings.contains(
            init_warning(file, world.stmts[j]->ClassDef_0),
        ),
    decreases j - i,
{
    let target = target_of(world, file, resolver);
    if let Ok(end) = world.pass.classes_from(target, world.stmts, i, progress) {
        match world.stmts[i] {
            StmtView::ClassDef(class) => {
                let next = world.pass.after_class(target, progress, class)->Ok_0;
                lemma_class_keeps(world, file, resolver, own, progress, class);
                if i < j {
                    lemma_constructed_classes(world, file, resolver, own, i + 1, next, j);
                } else {
                    lemma_constructed_is_skipped(world, file, resolver, own, progress, class);
                    lemma_classes_have(
                        world,
                        file,
                        resolver,
                        own,
                        i + 1,
                        next,
                        j,
                        seq![],
                        0,
                    );
                    let x = progress.warnings.len() as int;
                    assert(next.warnings =~= end.warnings.take(next.warnings.len() as int));
                    assert(end.warnings.take(next.warnings.len() as int)[x] == end.warnings[x]);
                }
            },
            _ => {
                lemma_constructed_classes(world, file, resolver, own, i + 1, progress, j);
            },
        }
    }
}

/// A test class with a constructor, or with a base class that has one, is warned of.
pub proof fn lemma_constructed_class_is_warned_of(
    world: WorldView,
    file: Seq<char>,
    j: int,
    tests: Seq<TestView>,
    warnings: Seq<WarningView>,
)
    requires
        forall|l: int|
            0 <= l < world.pass.loads.len() ==> (#[trigger] world.pass.loads[l]).path != world.path,
        0 <= j < world.stmts.len(),
        world.stmts[j] is ClassDef,
        world.pass.config.is_test_class(world.stmts[j]->ClassDef_0.name),
        is_constructed(world, world.stmts[j]->ClassDef_0),
        world.pass.discovered(file, world.path, world.stmts) == Ok::<DiscoveryView, ErrorView>(
            DiscoveryView::Found(tests, warnings),
        ),
    ensures
        warnings.contains(init_warning(file, world.stmts[j]->ClassDef_0)),
{
    let (first, needed) = prepared(
        fresh_resolver(world.stmts, world.path, true),
        world.pass.loads,
        world.pass.loads.len(),
    );
    let resolver = lemma_outcome_is_a_result(
        world.pass,
        file,
        world.path,
        world.stmts,
        first,
        world.pass.loads.len(),
    );
    let own = class_infos_from(
        world.pass.config,
        Some(resolver),
        true,
        world.stmts,
        0,
        world.path,
        imports_from(world.stmts, 0, seq![]),
        seq![],
    )->Ok_0;
    let target = target_of(world, file, resolver);
    let functions = world.pass.functions_from(target, world.stmts, 0, seq![])->Ok_0;
    let tables = TablesView { own_path: world.path, own, loaded: seq![] };
    assert(are_true(world, tables, own)) by {
        reveal(are_true);
    }
    lemma_no_load(world.pass.loads, world.path, 0);
    lemma_constructed_classes(
        world,
        file,
        resolver,
        own,
        0,
        ProgressView { tables, tests: functions, warnings: seq![] },
        j,
    );
}

} // verus!
