//! Semantic analysis for test discovery with import resolution.
//!
//! Discovery reads no files itself. It is given the modules that have been loaded so far; where it
//! depends on a module that is not among them, it answers with the path of that module, and is
//! repeated once the module has been loaded.

use crate::collection::error::{
    warning_views, CollectionError, CollectionResult, CollectionWarning, ErrorView, WarningView,
};
use crate::python_discovery::cases::{InfoView, MethodCasesInfo};
use crate::python_discovery::constant_resolver::{
    binding_views, dotted_path, fresh_resolver, from_path, local_name, module_of, BindingView,
    ConstantResolver, ImportBinding, ModuleView, ResolverView,
};
use crate::python_discovery::constants::base_exprs;
use crate::python_discovery::decorators::{
    decorators_expansion, decorators_info, parse_decorators_for_cases,
    parse_decorators_to_specs,
};
use crate::python_discovery::discovery::{
    class_has_init, class_methods, collect_test_methods, has_init, inherited_from, make_test,
    method_views, own_method_names, own_tests_from, push_inherited, push_own, test_names, test_of,
    test_views, ConfigView, MethodView, TestDiscoveryConfig, TestInfo, TestMethodInfo, TestView,
};
use crate::python_discovery::module_resolver::{
    absolute_import, find_load, load_from, load_views, parse_error, parse_failure,
    resolve_relative_import, LoadView, ModuleLoad,
};
use crate::python_discovery::parser::{parse, parse_result};
use crate::python_discovery::stdlib::{in_standard_library, is_known_standard_library};
use crate::python_discovery::syntax::{
    alias_views, expr_views, stmt_views, AliasView, ClassDef, ClassView, ExprView, PyAlias, PyExpr,
    PyModule, PyStmt, StmtView,
};
use crate::python_discovery::visitor::local_resolver;
use crate::strings::{
    copy, copy_all, nat_text, same, same_all, split, text_of, texts, usize_string,
};
use crate::table::{entry, insert, keys, names, place_of, with_entry};
use vstd::prelude::*;

verus! {

// ---------------------------------------------------------------------------------------------
// Imports and base classes
// ---------------------------------------------------------------------------------------------
/// `done` with the bindings of `from module import names`, from the `i`-th name on.
pub open spec fn from_names(
    aliases: Seq<AliasView>,
    i: int,
    mod_path: Seq<Seq<char>>,
    level: nat,
    done: Seq<(Seq<char>, BindingView)>,
) -> Seq<(Seq<char>, BindingView)>
    decreases aliases.len() - i,
{
    if i < 0 || i >= aliases.len() {
        done
    } else {
        from_names(
            aliases,
            i + 1,
            mod_path,
            level,
            with_entry(
                done,
                local_name(aliases[i]),
                BindingView { mod_path, imported_name: aliases[i].name, relative_level: level },
            ),
        )
    }
}

/// `done` with the bindings of `import names`, from the `i`-th name on: the whole dotted name is
/// the default for the local name.
pub open spec fn module_names(
    aliases: Seq<AliasView>,
    i: int,
    done: Seq<(Seq<char>, BindingView)>,
) -> Seq<(Seq<char>, BindingView)>
    decreases aliases.len() - i,
{
    if i < 0 || i >= aliases.len() {
        done
    } else {
        module_names(
            aliases,
            i + 1,
            with_entry(
                done,
                local_name(aliases[i]),
                BindingView {
                    mod_path: dotted_path(aliases[i].name),
                    imported_name: seq![],
                    relative_level: 0,
                },
            ),
        )
    }
}

/// `done` with the bindings of the import statements from `i` on.
pub open spec fn imports_from(
    stmts: Seq<StmtView>,
    i: int,
    done: Seq<(Seq<char>, BindingView)>,
) -> Seq<(Seq<char>, BindingView)>
    decreases stmts.len() - i,
{
    if i < 0 || i >= stmts.len() {
        done
    } else {
        let next = match stmts[i] {
            StmtView::ImportFrom { module, names, level } => from_names(
                names,
                0,
                from_path(module),
                level as nat,
                done,
            ),
            StmtView::Import { names } => module_names(names, 0, done),
            _ => done,
        };
        imports_from(stmts, i + 1, next)
    }
}

/// Helper to get alias name with fallback to the original name
fn get_alias_name_or_default(alias: &PyAlias) -> (r: String)
    ensures
        r@ == local_name(alias@),
{
    match &alias.asname {
        Some(name) => copy(name.as_str()),
        None => copy(alias.name.as_str()),
    }
}

fn bind_import(imports: &mut Vec<(String, ImportBinding)>, name: String, binding: ImportBinding)
    ensures
        binding_views(final(imports)@) == with_entry(
            binding_views(old(imports)@),
            name@,
            binding@,
        ),
{
    let ghost before = imports@;
    let ghost n = name@;
    let ghost b = binding@;
    assert(names(before) =~= keys(binding_views(before)));
    insert(imports, name, binding);
    assert(binding_views(imports@) =~= with_entry(binding_views(before), n, b));
}

/// Collect imports from the module
pub fn collect_imports_impl(module: &PyModule) -> (r: Vec<(String, ImportBinding)>)
    ensures
        binding_views(r@) == imports_from(module@, 0, seq![]),
{
    let ghost stmts = module@;
    let mut imports: Vec<(String, ImportBinding)> = Vec::new();
    assert(binding_views(imports@) =~= Seq::<(Seq<char>, BindingView)>::empty());
    let mut i: usize = 0;
    while i < module.body.len()
        invariant
            i <= module.body@.len(),
            stmts == stmt_views(module.body@),
            imports_from(stmts, 0, seq![]) == imports_from(
                stmts,
                i as int,
                binding_views(imports@),
            ),
        decreases module.body@.len() - i,
    {
        assert(stmts[i as int] == module.body@[i as int]@);
        match &module.body[i] {
            PyStmt::ImportFrom { module: from, names: aliases, level } => {
                let mod_path: Vec<String> = match from {
                    Some(name) => split(name.as_str(), '.'),
                    // Pure relative import (e.g., "from . import something")
                    None => Vec::new(),
                };
                let ghost path = from_path(text_of(*from));
                assert(texts(mod_path@) =~= path);
                let ghost start = binding_views(imports@);
                let ghost views = alias_views(aliases@);
                let mut k: usize = 0;
                while k < aliases.len()
                    invariant
                        k <= aliases@.len(),
                        views == alias_views(aliases@),
                        texts(mod_path@) == path,
                        from_names(views, 0, path, *level as nat, start) == from_names(
                            views,
                            k as int,
                            path,
                            *level as nat,
                            binding_views(imports@),
                        ),
                    decreases aliases@.len() - k,
                {
                    assert(views[k as int] == aliases@[k as int]@);
                    bind_import(
                        &mut imports,
                        get_alias_name_or_default(&aliases[k]),
                        ImportBinding {
                            mod_path: copy_all(mod_path.as_slice()),
                            imported_name: copy(aliases[k].name.as_str()),
                            relative_level: *level as usize,
                        },
                    );
                    k = k + 1;
                }
            },
            PyStmt::Import { names: aliases } => {
                let ghost start = binding_views(imports@);
                let ghost views = alias_views(aliases@);
                let mut k: usize = 0;
                while k < aliases.len()
                    invariant
                        k <= aliases@.len(),
                        views == alias_views(aliases@),
                        module_names(views, 0, start) == module_names(
                            views,
                            k as int,
                            binding_views(imports@),
                        ),
                    decreases aliases@.len() - k,
                {
                    assert(views[k as int] == aliases@[k as int]@);
                    let none = String::new();
                    assert(none@ =~= Seq::<char>::empty());
                    bind_import(
                        &mut imports,
                        get_alias_name_or_default(&aliases[k]),
                        ImportBinding {
                            mod_path: split(aliases[k].name.as_str(), '.'),
                            imported_name: none,
                            relative_level: 0,
                        },
                    );
                    k = k + 1;
                }
            },
            _ => {},
        }
        i = i + 1;
    }
    imports
}

/// Resolved base class information
#[derive(Debug)]
pub struct ResolvedBaseClass {
    pub mod_path: Vec<String>,
    pub class_name: String,
    pub is_local: bool,
}

/// View of a [`ResolvedBaseClass`].
pub ghost struct BaseView {
    pub mod_path: Seq<Seq<char>>,
    pub class_name: Seq<char>,
    pub is_local: bool,
}

impl ResolvedBaseClass {
    pub open spec fn view(&self) -> BaseView {
        BaseView {
            mod_path: texts(self.mod_path@),
            class_name: self.class_name@,
            is_local: self.is_local,
        }
    }

    fn copy(&self) -> (r: ResolvedBaseClass)
        ensures
            r@ == self@,
    {
        ResolvedBaseClass {
            mod_path: copy_all(self.mod_path.as_slice()),
            class_name: copy(self.class_name.as_str()),
            is_local: self.is_local,
        }
    }
}

pub open spec fn base_views(list: Seq<ResolvedBaseClass>) -> Seq<BaseView> {
    Seq::new(list.len(), |i: int| list[i].view())
}

/// The module that an import binding names, seen from a module. A relative import that leaves the
/// top-level package is an error.
pub open spec fn binding_target(current: Seq<Seq<char>>, import: BindingView) -> Result<
    Seq<Seq<char>>,
    ErrorView,
> {
    match absolute_import(current, import.relative_level, import.mod_path) {
        Some(path) => Ok(path),
        None => Err(
            ErrorView::ImportError(
                "Attempted relative import beyond top-level package (level "@ + nat_text(
                    import.relative_level,
                ) + " from depth "@ + nat_text(current.len()) + ")"@,
            ),
        ),
    }
}

/// The base class that an expression names: an imported class, a class of an imported module, or
/// a class of the same module; `Base[T]` names what `Base` does.
pub open spec fn base_of(
    e: ExprView,
    current: Seq<Seq<char>>,
    imports: Seq<(Seq<char>, BindingView)>,
) -> Result<Option<BaseView>, ErrorView>
    decreases e,
{
    match e {
        ExprView::Name(id) => match entry(imports, id) {
            Some(import) => match binding_target(current, import) {
                Ok(mod_path) => Ok(
                    Some(
                        BaseView { mod_path, class_name: import.imported_name, is_local: false },
                    ),
                ),
                Err(error) => Err(error),
            },
            None => Ok(Some(BaseView { mod_path: current, class_name: id, is_local: true })),
        },
        ExprView::Attribute { value, attr } => match *value {
            ExprView::Name(id) => match entry(imports, id) {
                Some(import) => match binding_target(current, import) {
                    Ok(mod_path) => Ok(
                        Some(BaseView { mod_path, class_name: attr, is_local: false }),
                    ),
                    Err(error) => Err(error),
                },
                None => Ok(None),
            },
            _ => Ok(None),
        },
        ExprView::Subscript { value } => base_of(*value, current, imports),
        _ => Ok(None),
    }
}

fn find_import<'a>(imports: &'a Vec<(String, ImportBinding)>, name: &str) -> (r: Option<
    &'a ImportBinding,
>)
    ensures
        match r {
            Some(import) => entry(binding_views(imports@), name@) == Some(import@),
            None => entry(binding_views(imports@), name@) is None,
        },
{
    assert(names(imports@) =~= keys(binding_views(imports@)));
    let at = place_of(imports.as_slice(), name);
    if at < imports.len() {
        Some(&imports[at].1)
    } else {
        None
    }
}

/// Helper to resolve relative imports to absolute module paths
pub fn resolve_relative_module_path(current: &[String], import: &ImportBinding) -> (r: Result<
    Vec<String>,
    CollectionError,
>)
    ensures
        match r {
            Ok(path) => binding_target(texts(current@), import@) == Ok::<
                Seq<Seq<char>>,
                ErrorView,
            >(texts(path@)),
            Err(error) => binding_target(texts(current@), import@) == Err::<
                Seq<Seq<char>>,
                ErrorView,
            >(error@),
        },
{
    match resolve_relative_import(current, import.relative_level, import.mod_path.as_slice()) {
        Some(path) => Ok(path),
        None => {
            let mut message = copy(
                "Attempted relative import beyond top-level package (level ",
            );
            message.append(usize_string(import.relative_level).as_str());
            message.append(" from depth ");
            message.append(usize_string(current.len()).as_str());
            message.append(")");
            Err(CollectionError::ImportError(message))
        },
    }
}

/// Resolve a base class expression to module path and class name
pub fn resolve_base_class(
    base_expr: &PyExpr,
    current: &[String],
    imports: &Vec<(String, ImportBinding)>,
) -> (r: CollectionResult<Option<ResolvedBaseClass>>)
    ensures
        match r {
            Ok(Some(base)) => base_of(base_expr@, texts(current@), binding_views(imports@)) == Ok::<
                Option<BaseView>,
                ErrorView,
            >(Some(base@)),
            Ok(None) => base_of(base_expr@, texts(current@), binding_views(imports@)) == Ok::<
                Option<BaseView>,
                ErrorView,
            >(None),
            Err(error) => base_of(base_expr@, texts(current@), binding_views(imports@)) == Err::<
                Option<BaseView>,
                ErrorView,
            >(error@),
        },
    decreases base_expr@,
{
    match base_expr {
        PyExpr::Name(id) => {
            if let Some(import) = find_import(imports, id.as_str()) {
                let mod_path = resolve_relative_module_path(current, import)?;
                return Ok(
                    Some(
                        ResolvedBaseClass {
                            mod_path,
                            class_name: copy(import.imported_name.as_str()),
                            is_local: false,
                        },
                    ),
                );
            }
            // Otherwise, it's a local class
            Ok(
                Some(
                    ResolvedBaseClass {
                        mod_path: copy_all(current),
                        class_name: copy(id.as_str()),
                        is_local: true,
                    },
                ),
            )
        },
        PyExpr::Attribute { value, attr } => {
            // Handle module.Class pattern
            match &**value {
                PyExpr::Name(id) => {
                    assert(value@ == ExprView::Name(id@));
                    match find_import(imports, id.as_str()) {
                        Some(import) => {
                            let mod_path = resolve_relative_module_path(current, import)?;
                            Ok(
                                Some(
                                    ResolvedBaseClass {
                                        mod_path,
                                        class_name: copy(attr.as_str()),
                                        is_local: false,
                                    },
                                ),
                            )
                        },
                        None => Ok(None),
                    }
                },
                _ => {
                    assert(!(value@ is Name));
                    Ok(None)
                },
            }
        },
        // Handle parameterized generics like GenericBase[T] by resolving the base type
        PyExpr::Subscript { value } => {
            assert(decreases_to!(base_expr@ => base_expr@->Subscript_value));
            resolve_base_class(value, current, imports)
        },
        _ => Ok(None),
    }
}

/// A base class expression in words.
pub open spec fn base_words(e: ExprView) -> Seq<char> {
    match e {
        ExprView::Name(id) => id,
        ExprView::Attribute { value, attr } => match *value {
            ExprView::Name(id) => id + seq!['.'] + attr,
            _ => "<complex>."@ + attr,
        },
        _ => "<unresolvable>"@,
    }
}

/// Format a base class expression for error messages
pub fn format_base_class_expr(base_expr: &PyExpr) -> (r: String)
    ensures
        r@ == base_words(base_expr@),
{
    match base_expr {
        PyExpr::Name(id) => copy(id.as_str()),
        PyExpr::Attribute { value, attr } => match &**value {
            PyExpr::Name(id) => {
                assert(value@ == ExprView::Name(id@));
                let mut r = copy(id.as_str());
                r.push('.');
                r.append(attr.as_str());
                assert(r@ =~= base_words(base_expr@));
                r
            },
            _ => {
                assert(!(value@ is Name));
                let mut r = copy("<complex>.");
                r.append(attr.as_str());
                r
            },
        },
        _ => copy("<unresolvable>"),
    }
}

// ---------------------------------------------------------------------------------------------
// Classes
// ---------------------------------------------------------------------------------------------
/// Why a pass over a module stopped.
pub enum Stop {
    /// The module cannot be collected.
    Error(CollectionError),
    /// A module has to be loaded before a constant can be resolved.
    Constants(Vec<String>),
    /// A module has to be loaded before a base class can be looked into.
    Classes(Vec<String>),
}

/// View of a [`Stop`].
pub ghost enum StopView {
    Error(ErrorView),
    Constants(Seq<Seq<char>>),
    Classes(Seq<Seq<char>>),
}

impl Stop {
    pub open spec fn view(&self) -> StopView {
        match self {
            Stop::Error(error) => StopView::Error(error@),
            Stop::Constants(path) => StopView::Constants(texts(path@)),
            Stop::Classes(path) => StopView::Classes(texts(path@)),
        }
    }
}

/// Test class information including methods
#[derive(Debug)]
pub struct TestClassInfo {
    pub name: String,
    pub has_init: bool,
    pub test_methods: Vec<TestMethodInfo>,
    pub base_classes: Vec<ResolvedBaseClass>,
    /// Class-level decorator specs
    pub class_specs: MethodCasesInfo,
}

/// View of a [`TestClassInfo`].
pub ghost struct ClassInfoView {
    pub name: Seq<char>,
    pub has_init: bool,
    pub test_methods: Seq<MethodView>,
    pub base_classes: Seq<BaseView>,
    pub class_specs: InfoView,
}

impl TestClassInfo {
    pub open spec fn view(&self) -> ClassInfoView {
        ClassInfoView {
            name: self.name@,
            has_init: self.has_init,
            test_methods: method_views(self.test_methods@),
            base_classes: base_views(self.base_classes@),
            class_specs: self.class_specs@,
        }
    }
}

pub open spec fn class_info_views(list: Seq<TestClassInfo>) -> Seq<ClassInfoView> {
    Seq::new(list.len(), |i: int| list[i].view())
}

/// `done` followed by the base classes that the expressions from `i` on name.
pub open spec fn bases_from(
    exprs: Seq<ExprView>,
    i: int,
    current: Seq<Seq<char>>,
    imports: Seq<(Seq<char>, BindingView)>,
    done: Seq<BaseView>,
) -> Result<Seq<BaseView>, ErrorView>
    decreases exprs.len() - i,
{
    if i < 0 || i >= exprs.len() {
        Ok(done)
    } else {
        match base_of(exprs[i], current, imports) {
            Err(error) => Err(error),
            Ok(Some(base)) => bases_from(exprs, i + 1, current, imports, done.push(base)),
            Ok(None) => bases_from(exprs, i + 1, current, imports, done),
        }
    }
}

/// Collect base class names from a class definition
fn collect_base_class_names(
    class_def: &ClassDef,
    current: &[String],
    imports: &Vec<(String, ImportBinding)>,
) -> (r: CollectionResult<Vec<ResolvedBaseClass>>)
    ensures
        match r {
            Ok(bases) => bases_from(
                base_exprs(class_def@),
                0,
                texts(current@),
                binding_views(imports@),
                seq![],
            ) == Ok::<Seq<BaseView>, ErrorView>(base_views(bases@)),
            Err(error) => bases_from(
                base_exprs(class_def@),
                0,
                texts(current@),
                binding_views(imports@),
                seq![],
            ) == Err::<Seq<BaseView>, ErrorView>(error@),
        },
{
    let mut bases: Vec<ResolvedBaseClass> = Vec::new();
    assert(base_views(bases@) =~= Seq::<BaseView>::empty());
    let ghost exprs = base_exprs(class_def@);
    let ghost path = texts(current@);
    let ghost bindings = binding_views(imports@);
    let ghost whole = bases_from(exprs, 0, path, bindings, seq![]);
    if let Some(list) = &class_def.bases {
        let mut i: usize = 0;
        while i < list.len()
            invariant
                i <= list@.len(),
                exprs == expr_views(list@),
                exprs == base_exprs(class_def@),
                path == texts(current@),
                bindings == binding_views(imports@),
                whole == bases_from(exprs, 0, path, bindings, seq![]),
                whole == bases_from(exprs, i as int, path, bindings, base_views(bases@)),
            decreases list@.len() - i,
        {
            assert(exprs[i as int] == list@[i as int]@);
            if let Some(base) = resolve_base_class(&list[i], current, imports)? {
                let ghost before = bases@;
                let ghost added = base@;
                bases.push(base);
                assert(base_views(bases@) =~= base_views(before).push(added));
            }
            // Skip unresolvable base class expressions (e.g., complex metaclasses)
            i = i + 1;
        }
    }
    Ok(bases)
}

/// What is kept of a class.
pub open spec fn class_info(
    config: ConfigView,
    resolver: Option<ResolverView>,
    class: ClassView,
    current: Seq<Seq<char>>,
    imports: Seq<(Seq<char>, BindingView)>,
) -> Result<ClassInfoView, StopView> {
    match class_methods(config, resolver, class) {
        Err(module) => Err(StopView::Constants(module)),
        Ok(test_methods) => match decorators_info(class.decorators, resolver, Some(class.name)) {
            Err(module) => Err(StopView::Constants(module)),
            Ok(class_specs) => match bases_from(base_exprs(class), 0, current, imports, seq![]) {
                Err(error) => Err(StopView::Error(error)),
                Ok(base_classes) => Ok(
                    ClassInfoView {
                        name: class.name,
                        has_init: has_init(class),
                        test_methods,
                        base_classes,
                        class_specs,
                    },
                ),
            },
        },
    }
}

/// `done` followed by what is kept of the classes among the statements from `i` on: of all of
/// them, or of the test classes alone.
pub open spec fn class_infos_from(
    config: ConfigView,
    resolver: Option<ResolverView>,
    tests_only: bool,
    stmts: Seq<StmtView>,
    i: int,
    current: Seq<Seq<char>>,
    imports: Seq<(Seq<char>, BindingView)>,
    done: Seq<ClassInfoView>,
) -> Result<Seq<ClassInfoView>, StopView>
    decreases stmts.len() - i,
{
    if i < 0 || i >= stmts.len() {
        Ok(done)
    } else {
        match stmts[i] {
            StmtView::ClassDef(class) if !tests_only || config.is_test_class(
                class.name,
            ) => match class_info(config, resolver, class, current, imports) {
                Err(stop) => Err(stop),
                Ok(info) => class_infos_from(
                    config,
                    resolver,
                    tests_only,
                    stmts,
                    i + 1,
                    current,
                    imports,
                    done.push(info),
                ),
            },
            _ => class_infos_from(
                config,
                resolver,
                tests_only,
                stmts,
                i + 1,
                current,
                imports,
                done,
            ),
        }
    }
}

fn collect_class_info(
    config: &TestDiscoveryConfig,
    resolver: &ConstantResolver,
    class_def: &ClassDef,
    current: &[String],
    imports: &Vec<(String, ImportBinding)>,
) -> (r: Result<TestClassInfo, Stop>)
    ensures
        match r {
            Ok(info) => class_info(
                config@,
                Some(resolver@),
                class_def@,
                texts(current@),
                binding_views(imports@),
            ) == Ok::<ClassInfoView, StopView>(info@),
            Err(stop) => class_info(
                config@,
                Some(resolver@),
                class_def@,
                texts(current@),
                binding_views(imports@),
            ) == Err::<ClassInfoView, StopView>(stop@),
        },
{
    let test_methods = match collect_test_methods(config, class_def, Some(resolver)) {
        Ok(methods) => methods,
        Err(module) => {
            return Err(Stop::Constants(module));
        },
    };
    let class_specs = match parse_decorators_to_specs(
        class_def.decorators.as_slice(),
        Some(resolver),
        Some(class_def.name.as_str()),
    ) {
        Ok(specs) => specs,
        Err(module) => {
            return Err(Stop::Constants(module));
        },
    };
    let base_classes = match collect_base_class_names(class_def, current, imports) {
        Ok(bases) => bases,
        Err(error) => {
            return Err(Stop::Error(error));
        },
    };
    Ok(
        TestClassInfo {
            name: copy(class_def.name.as_str()),
            has_init: class_has_init(class_def),
            test_methods,
            base_classes,
            class_specs,
        },
    )
}

/// Collect the classes of a module: all of them, or its test classes alone.
fn collect_classes(
    config: &TestDiscoveryConfig,
    resolver: &ConstantResolver,
    tests_only: bool,
    module: &PyModule,
    current: &[String],
) -> (r: Result<Vec<TestClassInfo>, Stop>)
    ensures
        match r {
            Ok(infos) => class_infos_from(
                config@,
                Some(resolver@),
                tests_only,
                module@,
                0,
                texts(current@),
                imports_from(module@, 0, seq![]),
                seq![],
            ) == Ok::<Seq<ClassInfoView>, StopView>(class_info_views(infos@)),
            Err(stop) => class_infos_from(
                config@,
                Some(resolver@),
                tests_only,
                module@,
                0,
                texts(current@),
                imports_from(module@, 0, seq![]),
                seq![],
            ) == Err::<Seq<ClassInfoView>, StopView>(stop@),
        },
{
    let imports = collect_imports_impl(module);
    let ghost stmts = module@;
    let ghost path = texts(current@);
    let ghost bindings = binding_views(imports@);
    let ghost whole = class_infos_from(
        config@,
        Some(resolver@),
        tests_only,
        stmts,
        0,
        path,
        bindings,
        seq![],
    );
    let mut infos: Vec<TestClassInfo> = Vec::new();
    assert(class_info_views(infos@) =~= Seq::<ClassInfoView>::empty());
    let mut i: usize = 0;
    while i < module.body.len()
        invariant
            i <= module.body@.len(),
            stmts == stmt_views(module.body@),
            stmts == module@,
            path == texts(current@),
            bindings == binding_views(imports@),
            bindings == imports_from(module@, 0, seq![]),
            whole == class_infos_from(
                config@,
                Some(resolver@),
                tests_only,
                stmts,
                0,
                path,
                bindings,
                seq![],
            ),
            whole == class_infos_from(
                config@,
                Some(resolver@),
                tests_only,
                stmts,
                i as int,
                path,
                bindings,
                class_info_views(infos@),
            ),
        decreases module.body@.len() - i,
    {
        assert(stmts[i as int] == module.body@[i as int]@);
        if let PyStmt::ClassDef(class_def) = &module.body[i] {
            if !tests_only || config.is_test_class(class_def.name.as_str()) {
                let info = collect_class_info(config, resolver, class_def, current, &imports)?;
                let ghost before = infos@;
                let ghost added = info@;
                infos.push(info);
                assert(class_info_views(infos@) =~= class_info_views(before).push(added));
            }
        }
        i = i + 1;
    }
    Ok(infos)
}

// ---------------------------------------------------------------------------------------------
// Loaded modules
// ---------------------------------------------------------------------------------------------
/// The classes of a loaded module; those of a module that could not be found are none.
#[derive(Debug)]
pub struct LoadedClasses {
    pub path: Vec<String>,
    pub classes: Vec<TestClassInfo>,
}

/// View of a [`LoadedClasses`].
pub ghost struct LoadedView {
    pub path: Seq<Seq<char>>,
    pub classes: Seq<ClassInfoView>,
}

impl LoadedClasses {
    pub open spec fn view(&self) -> LoadedView {
        LoadedView { path: texts(self.path@), classes: class_info_views(self.classes@) }
    }
}

pub open spec fn loaded_views(list: Seq<LoadedClasses>) -> Seq<LoadedView> {
    Seq::new(list.len(), |i: int| list[i].view())
}

/// The classes that a pass knows: the test classes of its own module, and all classes of the
/// modules that were looked into.
#[derive(Debug)]
pub struct ClassTables {
    pub own_path: Vec<String>,
    pub own: Vec<TestClassInfo>,
    pub loaded: Vec<LoadedClasses>,
}

/// View of [`ClassTables`].
pub ghost struct TablesView {
    pub own_path: Seq<Seq<char>>,
    pub own: Seq<ClassInfoView>,
    pub loaded: Seq<LoadedView>,
}

/// The last class of that name.
pub open spec fn last_named(list: Seq<ClassInfoView>, name: Seq<char>) -> Option<ClassInfoView>
    decreases list.len(),
{
    if list.len() == 0 {
        None
    } else if list.last().name == name {
        Some(list.last())
    } else {
        last_named(list.drop_last(), name)
    }
}

/// The classes of the first module from `i` on with that path.
pub open spec fn loaded_from(list: Seq<LoadedView>, path: Seq<Seq<char>>, i: int) -> Option<
    Seq<ClassInfoView>,
>
    decreases list.len() - i,
{
    if i < 0 || i >= list.len() {
        None
    } else if list[i].path == path {
        Some(list[i].classes)
    } else {
        loaded_from(list, path, i + 1)
    }
}

impl TablesView {
    /// The class of that name in a module.
    pub open spec fn class(self, path: Seq<Seq<char>>, name: Seq<char>) -> Option<ClassInfoView> {
        let loaded = match loaded_from(self.loaded, path, 0) {
            Some(classes) => last_named(classes, name),
            None => None,
        };
        if loaded is None && path == self.own_path {
            last_named(self.own, name)
        } else {
            loaded
        }
    }
}

fn find_last(list: &Vec<TestClassInfo>, name: &str) -> (r: Option<usize>)
    ensures
        match r {
            Some(at) => at < list@.len() && last_named(class_info_views(list@), name@) == Some(
                list@[at as int]@,
            ),
            None => last_named(class_info_views(list@), name@) is None,
        },
{
    let ghost views = class_info_views(list@);
    let mut n: usize = list.len();
    assert(views.take(n as int) =~= views);
    while n > 0
        invariant
            n <= list@.len(),
            views == class_info_views(list@),
            last_named(views, name@) == last_named(views.take(n as int), name@),
        decreases n,
    {
        proof {
            assert(views.take(n as int).drop_last() =~= views.take(n - 1));
            assert(views.take(n as int).last() == list@[n - 1]@);
        }
        if same(list[n - 1].name.as_str(), name) {
            return Some(n - 1);
        }
        n = n - 1;
    }
    None
}

impl ClassTables {
    pub open spec fn view(&self) -> TablesView {
        TablesView {
            own_path: texts(self.own_path@),
            own: class_info_views(self.own@),
            loaded: loaded_views(self.loaded@),
        }
    }

    fn place_of_loaded(&self, path: &[String]) -> (r: Option<usize>)
        ensures
            match r {
                Some(at) => at < self.loaded@.len() && loaded_from(
                    self@.loaded,
                    texts(path@),
                    0,
                ) == Some(class_info_views(self.loaded@[at as int].classes@)),
                None => loaded_from(self@.loaded, texts(path@), 0) is None,
            },
    {
        let ghost views = self@.loaded;
        let mut i: usize = 0;
        while i < self.loaded.len()
            invariant
                i <= self.loaded@.len(),
                views == loaded_views(self.loaded@),
                views == self@.loaded,
                loaded_from(views, texts(path@), 0) == loaded_from(
                    views,
                    texts(path@),
                    i as int,
                ),
            decreases self.loaded@.len() - i,
        {
            assert(views[i as int] == self.loaded@[i as int]@);
            if same_all(self.loaded[i].path.as_slice(), path) {
                return Some(i);
            }
            i = i + 1;
        }
        None
    }

    fn class(&self, path: &[String], name: &str) -> (r: Option<&TestClassInfo>)
        ensures
            match r {
                Some(info) => self@.class(texts(path@), name@) == Some(info@),
                None => self@.class(texts(path@), name@) is None,
            },
    {
        if let Some(at) = self.place_of_loaded(path) {
            if let Some(k) = find_last(&self.loaded[at].classes, name) {
                return Some(&self.loaded[at].classes[k]);
            }
        }
        if same_all(path, self.own_path.as_slice()) {
            if let Some(k) = find_last(&self.own, name) {
                return Some(&self.own[k]);
            }
        }
        None
    }
}

/// A module whose classes are never looked into.
pub open spec fn is_stdlib_path(path: Seq<Seq<char>>) -> bool {
    path.len() > 0 && in_standard_library(11, path[0])
}

/// Check if a module should be skipped for inheritance analysis.
///
/// All standard library modules are, since only project-local modules can be resolved.
pub fn is_stdlib_module_to_skip(path: &[String]) -> (r: bool)
    ensures
        r == is_stdlib_path(texts(path@)),
{
    if path.len() == 0 {
        return false;
    }
    is_known_standard_library(11, path[0].as_str())
}

/// What a pass over a module is given: the configuration and the loaded modules.
pub ghost struct PassView {
    pub config: ConfigView,
    pub loads: Seq<LoadView>,
}

/// The key of a class in the classes that are being looked into.
pub type ClassKey = (Seq<Seq<char>>, Seq<char>);

/// The words on a class that inherits from itself.
pub open spec fn circular_error(class: Seq<char>) -> StopView {
    StopView::Error(
        ErrorView::ParseError(
            "Circular inheritance detected in class hierarchy involving '"@ + class + "'"@,
        ),
    )
}

impl PassView {
    /// The tables after looking into a module: a module that cannot be found has no classes, any
    /// other failure is an error.
    pub open spec fn ensure(self, tables: TablesView, path: Seq<Seq<char>>) -> Result<
        TablesView,
        StopView,
    > {
        if loaded_from(tables.loaded, path, 0) is Some {
            Ok(tables)
        } else {
            match load_from(self.loads, path, 0) {
                None => Err(StopView::Classes(path)),
                Some(Err(ErrorView::ImportError(_))) => Ok(
                    TablesView {
                        loaded: tables.loaded.push(LoadedView { path, classes: seq![] }),
                        ..tables
                    },
                ),
                Some(Err(error)) => Err(StopView::Error(error)),
                Some(Ok(stmts)) => match class_infos_from(
                    self.config,
                    Some(local_resolver(stmts)),
                    false,
                    stmts,
                    0,
                    path,
                    imports_from(stmts, 0, seq![]),
                    seq![],
                ) {
                    Err(stop) => Err(stop),
                    Ok(classes) => Ok(
                        TablesView {
                            loaded: tables.loaded.push(LoadedView { path, classes }),
                            ..tables
                        },
                    ),
                },
            }
        }
    }

    /// The tables after looking into the module of a base class, where that is another one.
    pub open spec fn entered(self, tables: TablesView, base: BaseView) -> Result<
        TablesView,
        StopView,
    > {
        if base.is_local {
            Ok(tables)
        } else {
            self.ensure(tables, base.mod_path)
        }
    }

    /// Whether a base class, or a class that it inherits from, has a constructor. A class that is
    /// being looked into already counts as having none.
    pub open spec fn base_has_init(
        self,
        tables: TablesView,
        base: BaseView,
        visited: Seq<ClassKey>,
        fuel: nat,
    ) -> Result<(TablesView, bool), StopView>
        decreases fuel, 0int, 0int,
    {
        let key = (base.mod_path, base.class_name);
        if is_stdlib_path(base.mod_path) || visited.contains(key) || fuel == 0 {
            Ok((tables, false))
        } else {
            match self.entered(tables, base) {
                Err(stop) => Err(stop),
                Ok(now) => match now.class(base.mod_path, base.class_name) {
                    None => Ok((now, false)),
                    Some(info) => if info.has_init {
                        Ok((now, true))
                    } else {
                        self.any_has_init(
                            now,
                            info.base_classes,
                            0,
                            visited.push(key),
                            (fuel - 1) as nat,
                        )
                    },
                },
            }
        }
    }

    /// Whether one of the base classes from `i` on has a constructor.
    pub open spec fn any_has_init(
        self,
        tables: TablesView,
        bases: Seq<BaseView>,
        i: int,
        visited: Seq<ClassKey>,
        fuel: nat,
    ) -> Result<(TablesView, bool), StopView>
        decreases fuel, 1int, bases.len() - i,
    {
        if i < 0 || i >= bases.len() {
            Ok((tables, false))
        } else {
            match self.base_has_init(tables, bases[i], visited, fuel) {
                Ok((now, false)) => self.any_has_init(now, bases, i + 1, visited, fuel),
                other => other,
            }
        }
    }

    /// The test methods of a base class: first those it inherits, then its own. A class that is
    /// being looked into already is an error.
    pub open spec fn base_methods(
        self,
        tables: TablesView,
        base: BaseView,
        visited: Seq<ClassKey>,
        fuel: nat,
    ) -> Result<(TablesView, Option<Seq<MethodView>>), StopView>
        decreases fuel, 0int, 0int,
    {
        let key = (base.mod_path, base.class_name);
        if is_stdlib_path(base.mod_path) {
            Ok((tables, None))
        } else if visited.contains(key) || fuel == 0 {
            Err(circular_error(base.class_name))
        } else {
            match self.entered(tables, base) {
                Err(stop) => Err(stop),
                Ok(now) => match now.class(base.mod_path, base.class_name) {
                    None => Ok((now, None)),
                    Some(info) => match self.all_methods(
                        now,
                        info.base_classes,
                        0,
                        visited.push(key),
                        seq![],
                        (fuel - 1) as nat,
                    ) {
                        Err(stop) => Err(stop),
                        Ok((after, inherited)) => Ok((after, Some(inherited + info.test_methods))),
                    },
                },
            }
        }
    }

    /// `done` followed by the methods of the base classes from `i` on.
    pub open spec fn all_methods(
        self,
        tables: TablesView,
        bases: Seq<BaseView>,
        i: int,
        visited: Seq<ClassKey>,
        done: Seq<MethodView>,
        fuel: nat,
    ) -> Result<(TablesView, Seq<MethodView>), StopView>
        decreases fuel, 1int, bases.len() - i,
    {
        if i < 0 || i >= bases.len() {
            Ok((tables, done))
        } else {
            match self.base_methods(tables, bases[i], visited, fuel) {
                Err(stop) => Err(stop),
                Ok((now, Some(methods))) => self.all_methods(
                    now,
                    bases,
                    i + 1,
                    visited,
                    done + methods,
                    fuel,
                ),
                Ok((now, None)) => self.all_methods(now, bases, i + 1, visited, done, fuel),
            }
        }
    }

    /// How many levels of inheritance can be looked into: as many as the modules hold statements.
    pub open spec fn levels(self, tables: TablesView) -> nat {
        statement_bound(self.loads, tables.own.len())
    }
}

/// The number of statements of the loaded modules, added to `own`.
pub open spec fn statement_total(loads: Seq<LoadView>, own: nat) -> nat
    decreases loads.len(),
{
    if loads.len() == 0 {
        own
    } else {
        statement_total(loads.drop_last(), own) + match loads.last().result {
            Ok(stmts) => stmts.len(),
            Err(_) => 0,
        }
    }
}

/// [`statement_total`], as far as it can be counted, and one more.
pub open spec fn statement_bound(loads: Seq<LoadView>, own: nat) -> nat {
    let total = statement_total(loads, own);
    if total >= usize::MAX {
        usize::MAX as nat
    } else {
        total + 1
    }
}

/// What a pass over a module is given: the configuration and the loaded modules.
pub struct Pass<'a> {
    pub config: &'a TestDiscoveryConfig,
    pub loads: &'a [ModuleLoad],
}

pub open spec fn key_views(list: Seq<(Vec<String>, String)>) -> Seq<ClassKey> {
    Seq::new(list.len(), |i: int| (texts(list[i].0@), list[i].1@))
}

fn holds_key(list: &Vec<(Vec<String>, String)>, path: &[String], name: &str) -> (r: bool)
    ensures
        r == key_views(list@).contains((texts(path@), name@)),
{
    let ghost views = key_views(list@);
    let ghost key = (texts(path@), name@);
    let mut i: usize = 0;
    while i < list.len()
        invariant
            i <= list@.len(),
            views == key_views(list@),
            key == (texts(path@), name@),
            forall|j: int| 0 <= j < i ==> views[j] != key,
        decreases list@.len() - i,
    {
        assert(views[i as int] == (texts(list@[i as int].0@), list@[i as int].1@));
        if same_all(list[i].0.as_slice(), path) && same(list[i].1.as_str(), name) {
            assert(views[i as int] == key);
            return true;
        }
        i = i + 1;
    }
    false
}

fn with_key(list: &Vec<(Vec<String>, String)>, path: &[String], name: &str) -> (r: Vec<
    (Vec<String>, String),
>)
    ensures
        key_views(r@) == key_views(list@).push((texts(path@), name@)),
{
    let mut r: Vec<(Vec<String>, String)> = Vec::new();
    let mut i: usize = 0;
    while i < list.len()
        invariant
            i <= list@.len(),
            r@.len() == i,
            forall|j: int|
                #![trigger r@[j]]
                0 <= j < i ==> texts(r@[j].0@) == texts(list@[j].0@) && r@[j].1@ == list@[j].1@,
        decreases list@.len() - i,
    {
        r.push((copy_all(list[i].0.as_slice()), copy(list[i].1.as_str())));
        i = i + 1;
    }
    r.push((copy_all(path), copy(name)));
    assert(key_views(r@) =~= key_views(list@).push((texts(path@), name@)));
    r
}

fn copy_bases(list: &Vec<ResolvedBaseClass>) -> (r: Vec<ResolvedBaseClass>)
    ensures
        base_views(r@) == base_views(list@),
{
    let mut r: Vec<ResolvedBaseClass> = Vec::new();
    let mut i: usize = 0;
    while i < list.len()
        invariant
            i <= list@.len(),
            r@.len() == i,
            forall|j: int| 0 <= j < i ==> (#[trigger] r@[j])@ == list@[j]@,
        decreases list@.len() - i,
    {
        r.push(list[i].copy());
        i = i + 1;
    }
    assert(base_views(r@) =~= base_views(list@));
    r
}

fn extend_methods(list: &mut Vec<TestMethodInfo>, more: &Vec<TestMethodInfo>)
    ensures
        method_views(final(list)@) == method_views(old(list)@) + method_views(more@),
{
    let ghost start = list@;
    let mut i: usize = 0;
    while i < more.len()
        invariant
            i <= more@.len(),
            list@.len() == start.len() + i,
            forall|j: int| 0 <= j < start.len() ==> list@[j] == start[j],
            forall|j: int|
                #![trigger list@[j]]
                start.len() <= j < start.len() + i ==> list@[j]@ == more@[j - start.len()]@,
        decreases more@.len() - i,
    {
        list.push(more[i].copy());
        i = i + 1;
    }
    assert(method_views(list@) =~= method_views(start) + method_views(more@));
}

impl<'a> Pass<'a> {
    pub open spec fn view(&self) -> PassView {
        PassView { config: self.config@, loads: load_views(self.loads@) }
    }

    /// Ensure a module's classes are in the tables.
    fn ensure_module_loaded(&self, tables: &mut ClassTables, path: &[String]) -> (r: Result<
        (),
        Stop,
    >)
        ensures
            match r {
                Ok(()) => self@.ensure(old(tables)@, texts(path@)) == Ok::<TablesView, StopView>(
                    final(tables)@,
                ),
                Err(stop) => self@.ensure(old(tables)@, texts(path@)) == Err::<
                    TablesView,
                    StopView,
                >(stop@),
            },
    {
        // Check if we've already loaded this module
        if tables.place_of_loaded(path).is_some() {
            return Ok(());
        }
        let load = match find_load(self.loads, path) {
            Some(load) => load,
            None => {
                return Err(Stop::Classes(copy_all(path)));
            },
        };
        let classes: Vec<TestClassInfo> = match &load.result {
            // Always collect class info for external modules, even if they don't match test
            // patterns: they might be used as base classes.
            Ok(loaded) => {
                let resolver = ConstantResolver::from_module(&loaded.module);
                collect_classes(self.config, &resolver, false, &loaded.module, path)?
            },
            // Module is external or unresolvable
            Err(CollectionError::ImportError(_)) => Vec::new(),
            Err(error) => {
                return Err(Stop::Error(error.copy()));
            },
        };
        let ghost before = tables@;
        let entry = LoadedClasses { path: copy_all(path), classes };
        let ghost added = entry@;
        assert(load.result is Err ==> added.classes =~= Seq::<ClassInfoView>::empty());
        tables.loaded.push(entry);
        assert(tables@.loaded =~= before.loaded.push(added));
        Ok(())
    }

    fn enter(&self, tables: &mut ClassTables, base: &ResolvedBaseClass) -> (r: Result<(), Stop>)
        ensures
            match r {
                Ok(()) => self@.entered(old(tables)@, base@) == Ok::<TablesView, StopView>(
                    final(tables)@,
                ),
                Err(stop) => self@.entered(old(tables)@, base@) == Err::<TablesView, StopView>(
                    stop@,
                ),
            },
    {
        if base.is_local {
            Ok(())
        } else {
            self.ensure_module_loaded(tables, base.mod_path.as_slice())
        }
    }

    /// Check if a base class has __init__ (recursively checking ancestors), with cycle detection
    fn base_class_has_init_impl(
        &self,
        tables: &mut ClassTables,
        base: &ResolvedBaseClass,
        visited: &Vec<(Vec<String>, String)>,
        fuel: usize,
    ) -> (r: Result<bool, Stop>)
        ensures
            match r {
                Ok(found) => self@.base_has_init(
                    old(tables)@,
                    base@,
                    key_views(visited@),
                    fuel as nat,
                ) == Ok::<(TablesView, bool), StopView>((final(tables)@, found)),
                Err(stop) => self@.base_has_init(
                    old(tables)@,
                    base@,
                    key_views(visited@),
                    fuel as nat,
                ) == Err::<(TablesView, bool), StopView>(stop@),
            },
        decreases fuel,
    {
        let path = base.mod_path.as_slice();
        let name = base.class_name.as_str();
        // A cycle is broken by assuming no init
        if is_stdlib_module_to_skip(path) || holds_key(visited, path, name) || fuel == 0 {
            return Ok(false);
        }
        self.enter(tables, base)?;
        let parents = match tables.class(path, name) {
            Some(info) => {
                if info.has_init {
                    return Ok(true);
                }
                copy_bases(&info.base_classes)
            },
            None => {
                return Ok(false);
            },
        };
        let inner = with_key(visited, path, name);
        let ghost whole = self@.base_has_init(
            old(tables)@,
            base@,
            key_views(visited@),
            fuel as nat,
        );
        let ghost views = base_views(parents@);
        let mut i: usize = 0;
        while i < parents.len()
            invariant
                i <= parents@.len(),
                fuel > 0,
                views == base_views(parents@),
                whole == self@.base_has_init(
                    old(tables)@,
                    base@,
                    key_views(visited@),
                    fuel as nat,
                ),
                whole == self@.any_has_init(
                    tables@,
                    views,
                    i as int,
                    key_views(inner@),
                    (fuel - 1) as nat,
                ),
            decreases parents@.len() - i,
        {
            assert(views[i as int] == parents@[i as int]@);
            if self.base_class_has_init_impl(tables, &parents[i], &inner, fuel - 1)? {
                return Ok(true);
            }
            i = i + 1;
        }
        Ok(false)
    }

    /// Get test methods from a base class, including inherited methods, with cycle detection
    fn get_base_class_methods_impl(
        &self,
        tables: &mut ClassTables,
        base: &ResolvedBaseClass,
        visited: &Vec<(Vec<String>, String)>,
        fuel: usize,
    ) -> (r: Result<Option<Vec<TestMethodInfo>>, Stop>)
        ensures
            match r {
                Ok(Some(methods)) => self@.base_methods(
                    old(tables)@,
                    base@,
                    key_views(visited@),
                    fuel as nat,
                ) == Ok::<(TablesView, Option<Seq<MethodView>>), StopView>(
                    (final(tables)@, Some(method_views(methods@))),
                ),
                Ok(None) => self@.base_methods(
                    old(tables)@,
                    base@,
                    key_views(visited@),
                    fuel as nat,
                ) == Ok::<(TablesView, Option<Seq<MethodView>>), StopView>(
                    (final(tables)@, None),
                ),
                Err(stop) => self@.base_methods(
                    old(tables)@,
                    base@,
                    key_views(visited@),
                    fuel as nat,
                ) == Err::<(TablesView, Option<Seq<MethodView>>), StopView>(stop@),
            },
        decreases fuel,
    {
        let path = base.mod_path.as_slice();
        let name = base.class_name.as_str();
        if is_stdlib_module_to_skip(path) {
            return Ok(None);
        }
        if holds_key(visited, path, name) || fuel == 0 {
            let mut message = copy(
                "Circular inheritance detected in class hierarchy involving '",
            );
            message.append(name);
            message.append("'");
            return Err(Stop::Error(CollectionError::ParseError(message)));
        }
        self.enter(tables, base)?;
        let ghost entered = tables@;
        let mut own: Vec<TestMethodInfo> = Vec::new();
        let parents = match tables.class(path, name) {
            Some(info) => {
                extend_methods(&mut own, &info.test_methods);
                copy_bases(&info.base_classes)
            },
            None => {
                return Ok(None);
            },
        };
        let ghost info = entered.class(texts(path@), name@)->0;
        assert(method_views(own@) =~= info.test_methods);
        let inner = with_key(visited, path, name);
        let ghost views = base_views(parents@);
        let ghost inherited = self@.all_methods(
            entered,
            views,
            0,
            key_views(inner@),
            seq![],
            (fuel - 1) as nat,
        );
        let ghost whole = self@.base_methods(
            old(tables)@,
            base@,
            key_views(visited@),
            fuel as nat,
        );
        let mut all: Vec<TestMethodInfo> = Vec::new();
        assert(method_views(all@) =~= Seq::<MethodView>::empty());
        // First, recursively get methods from this class's base classes
        let mut i: usize = 0;
        while i < parents.len()
            invariant
                i <= parents@.len(),
                fuel > 0,
                views == base_views(parents@),
                whole == self@.base_methods(
                    old(tables)@,
                    base@,
                    key_views(visited@),
                    fuel as nat,
                ),
                inherited is Err ==> whole == Err::<
                    (TablesView, Option<Seq<MethodView>>),
                    StopView,
                >(inherited->Err_0),
                inherited == self@.all_methods(
                    tables@,
                    views,
                    i as int,
                    key_views(inner@),
                    method_views(all@),
                    (fuel - 1) as nat,
                ),
            decreases parents@.len() - i,
        {
            assert(views[i as int] == parents@[i as int]@);
            if let Some(methods) = self.get_base_class_methods_impl(
                tables,
                &parents[i],
                &inner,
                fuel - 1,
            )? {
                extend_methods(&mut all, &methods);
            }
            i = i + 1;
        }
        // Then add this class's own methods
        extend_methods(&mut all, &own);
        Ok(Some(all))
    }

    fn levels(&self, tables: &ClassTables) -> (r: usize)
        ensures
            r == self@.levels(tables@),
    {
        let ghost loads = self@.loads;
        let ghost own = tables@.own.len();
        let mut total: usize = tables.own.len();
        let mut i: usize = 0;
        assert(loads.take(0) =~= Seq::<LoadView>::empty());
        while i < self.loads.len()
            invariant
                i <= self.loads@.len(),
                loads == load_views(self.loads@),
                total == {
                    let t = statement_total(loads.take(i as int), own);
                    if t > usize::MAX {
                        usize::MAX as nat
                    } else {
                        t
                    }
                },
            decreases self.loads@.len() - i,
        {
            proof {
                assert(loads.take(i + 1).drop_last() =~= loads.take(i as int));
                assert(loads.take(i + 1).last() == self.loads@[i as int]@);
            }
            if let Ok(loaded) = &self.loads[i].result {
                let more = loaded.module.body.len();
                if total > usize::MAX - more {
                    total = usize::MAX;
                } else {
                    total = total + more;
                }
            }
            i = i + 1;
        }
        assert(loads.take(loads.len() as int) =~= loads);
        if total == usize::MAX {
            total
        } else {
            total + 1
        }
    }
}

// ---------------------------------------------------------------------------------------------
// A pass over a module
// ---------------------------------------------------------------------------------------------
/// The module that a pass goes over.
pub ghost struct TargetView {
    pub file: Seq<char>,
    pub path: Seq<Seq<char>>,
    pub imports: Seq<(Seq<char>, BindingView)>,
    pub resolver: ResolverView,
}

/// What a pass has come to.
pub ghost struct ProgressView {
    pub tables: TablesView,
    pub tests: Seq<TestView>,
    pub warnings: Seq<WarningView>,
}

/// The warning on a class that is not collected.
pub open spec fn init_warning(file: Seq<char>, class: ClassView) -> WarningView {
    WarningView {
        file_path: file,
        line: if class.offset < usize::MAX {
            (class.offset + 1) as nat
        } else {
            usize::MAX as nat
        },
        message: "cannot collect test class '"@ + class.name
            + "' because it has a __init__ constructor"@,
    }
}

impl PassView {
    /// Whether one of the base classes that the expressions from `i` on name has a constructor.
    pub open spec fn bases_have_init(
        self,
        target: TargetView,
        tables: TablesView,
        bases: Seq<ExprView>,
        i: int,
    ) -> Result<(TablesView, bool), StopView>
        decreases bases.len() - i,
    {
        if i < 0 || i >= bases.len() {
            Ok((tables, false))
        } else {
            match base_of(bases[i], target.path, target.imports) {
                Err(error) => Err(StopView::Error(error)),
                Ok(None) => self.bases_have_init(target, tables, bases, i + 1),
                Ok(Some(base)) => match self.base_has_init(
                    tables,
                    base,
                    seq![],
                    self.levels(tables),
                ) {
                    Ok((now, false)) => self.bases_have_init(target, now, bases, i + 1),
                    other => other,
                },
            }
        }
    }

    /// Whether the class is not collected: it, or a class it inherits from, has a constructor.
    pub open spec fn skips(self, target: TargetView, tables: TablesView, class: ClassView) -> Result<
        (TablesView, bool),
        StopView,
    > {
        if has_init(class) {
            Ok((tables, true))
        } else {
            self.bases_have_init(target, tables, base_exprs(class), 0)
        }
    }

    /// `done` followed by the tests that a class inherits from the bases from `i` on.
    pub open spec fn inherited(
        self,
        target: TargetView,
        tables: TablesView,
        bases: Seq<ExprView>,
        i: int,
        own: Seq<Seq<char>>,
        class_specs: InfoView,
        class: Seq<char>,
        done: Seq<TestView>,
    ) -> Result<(TablesView, Seq<TestView>), StopView>
        decreases bases.len() - i,
    {
        if i < 0 || i >= bases.len() {
            Ok((tables, done))
        } else {
            match base_of(bases[i], target.path, target.imports) {
                Err(error) => Err(StopView::Error(error)),
                Ok(None) => self.inherited(
                    target,
                    tables,
                    bases,
                    i + 1,
                    own,
                    class_specs,
                    class,
                    done,
                ),
                Ok(Some(base)) => match self.base_methods(
                    tables,
                    base,
                    seq![],
                    self.levels(tables),
                ) {
                    Err(stop) => Err(stop),
                    Ok((now, found)) => self.inherited(
                        target,
                        now,
                        bases,
                        i + 1,
                        own,
                        class_specs,
                        class,
                        match found {
                            Some(methods) => inherited_from(
                                methods,
                                0,
                                own,
                                class_specs,
                                class,
                                done,
                            ),
                            None => done,
                        },
                    ),
                },
            }
        }
    }

    /// The progress after a class: its tests, inherited ones first, or a warning that it is not
    /// collected.
    pub open spec fn after_class(
        self,
        target: TargetView,
        progress: ProgressView,
        class: ClassView,
    ) -> Result<ProgressView, StopView> {
        if !self.config.is_test_class(class.name) {
            Ok(progress)
        } else {
            match self.skips(target, progress.tables, class) {
                Err(stop) => Err(stop),
                Ok((tables, true)) => Ok(
                    ProgressView {
                        tables,
                        warnings: progress.warnings.push(init_warning(target.file, class)),
                        ..progress
                    },
                ),
                Ok((tables, false)) => match decorators_info(
                    class.decorators,
                    Some(target.resolver),
                    Some(class.name),
                ) {
                    Err(module) => Err(StopView::Constants(module)),
                    Ok(class_specs) => match self.inherited(
                        target,
                        tables,
                        base_exprs(class),
                        0,
                        test_names(self.config, class.body),
                        class_specs,
                        class.name,
                        progress.tests,
                    ) {
                        Err(stop) => Err(stop),
                        Ok((now, tests)) => match own_tests_from(
                            self.config,
                            Some(target.resolver),
                            class.name,
                            class_specs,
                            class.body,
                            0,
                            tests,
                        ) {
                            Err(module) => Err(StopView::Constants(module)),
                            Ok(all) => Ok(
                                ProgressView {
                                    tables: now,
                                    tests: all,
                                    warnings: progress.warnings,
                                },
                            ),
                        },
                    },
                },
            }
        }
    }

    /// `done` followed by the tests of the module-level functions from `i` on.
    pub open spec fn functions_from(
        self,
        target: TargetView,
        stmts: Seq<StmtView>,
        i: int,
        done: Seq<TestView>,
    ) -> Result<Seq<TestView>, StopView>
        decreases stmts.len() - i,
    {
        if i < 0 || i >= stmts.len() {
            Ok(done)
        } else {
            match stmts[i] {
                StmtView::FunctionDef(func) if self.config.is_test_function(
                    func.name,
                ) => match decorators_expansion(func.decorators, Some(target.resolver), None) {
                    Err(module) => Err(StopView::Constants(module)),
                    Ok(cases) => self.functions_from(
                        target,
                        stmts,
                        i + 1,
                        done.push(test_of(func.name, func.offset as nat, None, cases)),
                    ),
                },
                _ => self.functions_from(target, stmts, i + 1, done),
            }
        }
    }

    /// The progress after the classes from `i` on.
    pub open spec fn classes_from(
        self,
        target: TargetView,
        stmts: Seq<StmtView>,
        i: int,
        progress: ProgressView,
    ) -> Result<ProgressView, StopView>
        decreases stmts.len() - i,
    {
        if i < 0 || i >= stmts.len() {
            Ok(progress)
        } else {
            match stmts[i] {
                StmtView::ClassDef(class) => match self.after_class(target, progress, class) {
                    Err(stop) => Err(stop),
                    Ok(next) => self.classes_from(target, stmts, i + 1, next),
                },
                _ => self.classes_from(target, stmts, i + 1, progress),
            }
        }
    }

    /// The tests and warnings of a module: its functions first, then its classes.
    pub open spec fn result(
        self,
        file: Seq<char>,
        path: Seq<Seq<char>>,
        stmts: Seq<StmtView>,
        resolver: ResolverView,
    ) -> Result<(Seq<TestView>, Seq<WarningView>), StopView> {
        let imports = imports_from(stmts, 0, seq![]);
        let target = TargetView { file, path, imports, resolver };
        match class_infos_from(
            self.config,
            Some(resolver),
            true,
            stmts,
            0,
            path,
            imports,
            seq![],
        ) {
            Err(stop) => Err(stop),
            Ok(own) => match self.functions_from(target, stmts, 0, seq![]) {
                Err(stop) => Err(stop),
                Ok(tests) => match self.classes_from(
                    target,
                    stmts,
                    0,
                    ProgressView {
                        tables: TablesView { own_path: path, own, loaded: seq![] },
                        tests,
                        warnings: seq![],
                    },
                ) {
                    Err(stop) => Err(stop),
                    Ok(progress) => Ok((progress.tests, progress.warnings)),
                },
            },
        }
    }
}

/// The module that a pass goes over.
struct Target<'a> {
    file: &'a str,
    path: &'a [String],
    imports: &'a Vec<(String, ImportBinding)>,
    resolver: &'a ConstantResolver,
}

impl<'a> Target<'a> {
    spec fn view(&self) -> TargetView {
        TargetView {
            file: self.file@,
            path: texts(self.path@),
            imports: binding_views(self.imports@),
            resolver: self.resolver@,
        }
    }
}

impl<'a> Pass<'a> {
    /// Check if a class should be skipped (has __init__ or inherits from class with __init__)
    fn should_skip_class(
        &self,
        target: &Target,
        tables: &mut ClassTables,
        class_def: &ClassDef,
    ) -> (r: Result<bool, Stop>)
        ensures
            match r {
                Ok(skip) => self@.skips(target@, old(tables)@, class_def@) == Ok::<
                    (TablesView, bool),
                    StopView,
                >((final(tables)@, skip)),
                Err(stop) => self@.skips(target@, old(tables)@, class_def@) == Err::<
                    (TablesView, bool),
                    StopView,
                >(stop@),
            },
    {
        if class_has_init(class_def) {
            return Ok(true);
        }
        let ghost exprs = base_exprs(class_def@);
        let ghost whole = self@.skips(target@, old(tables)@, class_def@);
        if let Some(bases) = &class_def.bases {
            let none: Vec<(Vec<String>, String)> = Vec::new();
            assert(key_views(none@) =~= Seq::<ClassKey>::empty());
            let mut i: usize = 0;
            while i < bases.len()
                invariant
                    i <= bases@.len(),
                    exprs == expr_views(bases@),
                    key_views(none@) == Seq::<ClassKey>::empty(),
                    whole == self@.skips(target@, old(tables)@, class_def@),
                    whole == self@.bases_have_init(target@, tables@, exprs, i as int),
                decreases bases@.len() - i,
            {
                assert(exprs[i as int] == bases@[i as int]@);
                match resolve_base_class(&bases[i], target.path, target.imports) {
                    Err(error) => {
                        return Err(Stop::Error(error));
                    },
                    // Skip unresolvable base class expressions - assume no __init__
                    Ok(None) => {},
                    Ok(Some(base)) => {
                        let levels = self.levels(tables);
                        if self.base_class_has_init_impl(tables, &base, &none, levels)? {
                            return Ok(true);
                        }
                    },
                }
                i = i + 1;
            }
        }
        Ok(false)
    }

    /// Adds the tests that a class inherits.
    fn collect_inherited(
        &self,
        target: &Target,
        tables: &mut ClassTables,
        class_def: &ClassDef,
        class_specs: &MethodCasesInfo,
        own: &[String],
        tests: Vec<TestInfo>,
    ) -> (r: Result<Vec<TestInfo>, Stop>)
        ensures
            match r {
                Ok(list) => self@.inherited(
                    target@,
                    old(tables)@,
                    base_exprs(class_def@),
                    0,
                    texts(own@),
                    class_specs@,
                    class_def.name@,
                    test_views(tests@),
                ) == Ok::<(TablesView, Seq<TestView>), StopView>(
                    (final(tables)@, test_views(list@)),
                ),
                Err(stop) => self@.inherited(
                    target@,
                    old(tables)@,
                    base_exprs(class_def@),
                    0,
                    texts(own@),
                    class_specs@,
                    class_def.name@,
                    test_views(tests@),
                ) == Err::<(TablesView, Seq<TestView>), StopView>(stop@),
            },
    {
        let ghost exprs = base_exprs(class_def@);
        let ghost whole = self@.inherited(
            target@,
            old(tables)@,
            exprs,
            0,
            texts(own@),
            class_specs@,
            class_def.name@,
            test_views(tests@),
        );
        let mut list = tests;
        if let Some(bases) = &class_def.bases {
            let none: Vec<(Vec<String>, String)> = Vec::new();
            assert(key_views(none@) =~= Seq::<ClassKey>::empty());
            let mut i: usize = 0;
            while i < bases.len()
                invariant
                    i <= bases@.len(),
                    exprs == expr_views(bases@),
                    exprs == base_exprs(class_def@),
                    key_views(none@) == Seq::<ClassKey>::empty(),
                    whole == self@.inherited(
                        target@,
                        old(tables)@,
                        exprs,
                        0,
                        texts(own@),
                        class_specs@,
                        class_def.name@,
                        test_views(tests@),
                    ),
                    whole == self@.inherited(
                        target@,
                        tables@,
                        exprs,
                        i as int,
                        texts(own@),
                        class_specs@,
                        class_def.name@,
                        test_views(list@),
                    ),
                decreases bases@.len() - i,
            {
                assert(exprs[i as int] == bases@[i as int]@);
                match resolve_base_class(&bases[i], target.path, target.imports) {
                    Err(error) => {
                        return Err(Stop::Error(error));
                    },
                    // Skip unresolvable base class expressions
                    Ok(None) => {},
                    Ok(Some(base)) => {
                        let levels = self.levels(tables);
                        // Method specs from the base class (not yet combined with class
                        // decorators)
                        if let Some(methods) = self.get_base_class_methods_impl(
                            tables,
                            &base,
                            &none,
                            levels,
                        )? {
                            push_inherited(
                                &mut list,
                                methods.as_slice(),
                                own,
                                class_specs,
                                class_def.name.as_str(),
                            );
                        }
                    },
                }
                i = i + 1;
            }
        }
        Ok(list)
    }

    /// Collect all tests from a class, including inherited ones
    fn collect_class_tests(
        &self,
        target: &Target,
        tables: &mut ClassTables,
        class_def: &ClassDef,
        tests: Vec<TestInfo>,
        warnings: &mut Vec<CollectionWarning>,
    ) -> (r: Result<Vec<TestInfo>, Stop>)
        ensures
            ({
                let before = ProgressView {
                    tables: old(tables)@,
                    tests: test_views(tests@),
                    warnings: warning_views(old(warnings)@),
                };
                match r {
                    Ok(list) => self@.after_class(target@, before, class_def@) == Ok::<
                        ProgressView,
                        StopView,
                    >(
                        ProgressView {
                            tables: final(tables)@,
                            tests: test_views(list@),
                            warnings: warning_views(final(warnings)@),
                        },
                    ),
                    Err(stop) => self@.after_class(target@, before, class_def@) == Err::<
                        ProgressView,
                        StopView,
                    >(stop@),
                }
            }),
    {
        let class_name = class_def.name.as_str();
        // Check if this class should be collected
        if !self.config.is_test_class(class_name) {
            return Ok(tests);
        }
        // Check if this class or any parent has __init__
        if self.should_skip_class(target, tables, class_def)? {
            let mut message = copy("cannot collect test class '");
            message.append(class_name);
            message.append("' because it has a __init__ constructor");
            let offset: usize = class_def.offset as usize;
            let warning = CollectionWarning {
                file_path: copy(target.file),
                line: if offset < usize::MAX {
                    offset + 1
                } else {
                    offset
                },
                message,
            };
            let ghost before = warnings@;
            let ghost added = warning@;
            warnings.push(warning);
            assert(warning_views(warnings@) =~= warning_views(before).push(added));
            return Ok(tests);
        }
        // Parse class-level decorators once
        let class_specs = match parse_decorators_to_specs(
            class_def.decorators.as_slice(),
            Some(target.resolver),
            Some(class_name),
        ) {
            Ok(specs) => specs,
            Err(module) => {
                return Err(Stop::Constants(module));
            },
        };
        // Methods defined directly in this class filter the inherited ones
        let own = own_method_names(self.config, class_def);
        let list = self.collect_inherited(
            target,
            tables,
            class_def,
            &class_specs,
            own.as_slice(),
            tests,
        )?;
        match push_own(list, self.config, class_def, &class_specs, Some(target.resolver)) {
            Ok(all) => Ok(all),
            Err(module) => Err(Stop::Constants(module)),
        }
    }

    fn collect_functions(&self, target: &Target, module: &PyModule) -> (r: Result<
        Vec<TestInfo>,
        Stop,
    >)
        ensures
            match r {
                Ok(tests) => self@.functions_from(target@, module@, 0, seq![]) == Ok::<
                    Seq<TestView>,
                    StopView,
                >(test_views(tests@)),
                Err(stop) => self@.functions_from(target@, module@, 0, seq![]) == Err::<
                    Seq<TestView>,
                    StopView,
                >(stop@),
            },
    {
        let ghost stmts = module@;
        let ghost whole = self@.functions_from(target@, stmts, 0, seq![]);
        let mut tests: Vec<TestInfo> = Vec::new();
        assert(test_views(tests@) =~= Seq::<TestView>::empty());
        let mut i: usize = 0;
        while i < module.body.len()
            invariant
                i <= module.body@.len(),
                stmts == stmt_views(module.body@),
                stmts == module@,
                whole == self@.functions_from(target@, stmts, 0, seq![]),
                whole == self@.functions_from(target@, stmts, i as int, test_views(tests@)),
            decreases module.body@.len() - i,
        {
            assert(stmts[i as int] == module.body@[i as int]@);
            if let PyStmt::FunctionDef(func) = &module.body[i] {
                if self.config.is_test_function(func.name.as_str()) {
                    match parse_decorators_for_cases(
                        func.decorators.as_slice(),
                        Some(target.resolver),
                        None,
                    ) {
                        Ok(cases) => {
                            let test = make_test(
                                func.name.as_str(),
                                func.offset as usize,
                                None,
                                cases,
                            );
                            let ghost before = tests@;
                            let ghost added = test@;
                            tests.push(test);
                            assert(test_views(tests@) =~= test_views(before).push(added));
                        },
                        Err(module) => {
                            return Err(Stop::Constants(module));
                        },
                    }
                }
            }
            i = i + 1;
        }
        Ok(tests)
    }

    /// Goes over a module: first its imports and test classes, then its functions and classes.
    pub fn run(
        &self,
        file: &str,
        path: &[String],
        module: &PyModule,
        resolver: &ConstantResolver,
    ) -> (r: Result<(Vec<TestInfo>, Vec<CollectionWarning>), Stop>)
        ensures
            match r {
                Ok((tests, warnings)) => self@.result(file@, texts(path@), module@, resolver@)
                    == Ok::<(Seq<TestView>, Seq<WarningView>), StopView>(
                    (test_views(tests@), warning_views(warnings@)),
                ),
                Err(stop) => self@.result(file@, texts(path@), module@, resolver@) == Err::<
                    (Seq<TestView>, Seq<WarningView>),
                    StopView,
                >(stop@),
            },
    {
        let imports = collect_imports_impl(module);
        let own = collect_classes(self.config, resolver, true, module, path)?;
        let target = Target { file, path, imports: &imports, resolver };
        let functions = self.collect_functions(&target, module)?;
        let mut tables = ClassTables { own_path: copy_all(path), own, loaded: Vec::new() };
        let mut warnings: Vec<CollectionWarning> = Vec::new();
        let ghost stmts = module@;
        let ghost start = ProgressView {
            tables: tables@,
            tests: test_views(functions@),
            warnings: seq![],
        };
        proof {
            assert(tables@.loaded =~= Seq::<LoadedView>::empty());
            assert(warning_views(warnings@) =~= Seq::<WarningView>::empty());
        }
        let ghost whole = self@.classes_from(target@, stmts, 0, start);
        let mut tests = functions;
        let mut i: usize = 0;
        while i < module.body.len()
            invariant
                i <= module.body@.len(),
                stmts == stmt_views(module.body@),
                whole == self@.classes_from(
                    target@,
                    stmts,
                    i as int,
                    ProgressView {
                        tables: tables@,
                        tests: test_views(tests@),
                        warnings: warning_views(warnings@),
                    },
                ),
                whole is Err ==> self@.result(file@, texts(path@), module@, resolver@) == Err::<
                    (Seq<TestView>, Seq<WarningView>),
                    StopView,
                >(whole->Err_0),
            decreases module.body@.len() - i,
        {
            assert(stmts[i as int] == module.body@[i as int]@);
            if let PyStmt::ClassDef(class_def) = &module.body[i] {
                tests = self.collect_class_tests(
                    &target,
                    &mut tables,
                    class_def,
                    tests,
                    &mut warnings,
                )?;
            }
            i = i + 1;
        }
        Ok((tests, warnings))
    }
}

// ---------------------------------------------------------------------------------------------
// Discovery
// ---------------------------------------------------------------------------------------------
/// What discovery comes to: the tests and warnings of the file, or a module that has to be loaded
/// first.
#[derive(Debug)]
pub enum Discovery {
    Found(Vec<TestInfo>, Vec<CollectionWarning>),
    Needs(Vec<String>),
}

/// View of a [`Discovery`].
pub ghost enum DiscoveryView {
    Found(Seq<TestView>, Seq<WarningView>),
    Needs(Seq<Seq<char>>),
}

impl Discovery {
    pub open spec fn view(&self) -> DiscoveryView {
        match self {
            Discovery::Found(tests, warnings) => DiscoveryView::Found(
                test_views(tests@),
                warning_views(warnings@),
            ),
            Discovery::Needs(path) => DiscoveryView::Needs(texts(path@)),
        }
    }
}

/// What a resolver learns of a module: nothing where it could not be loaded.
pub open spec fn constants_of(result: Result<Seq<StmtView>, ErrorView>) -> Option<ModuleView> {
    match result {
        Ok(stmts) => Some(module_of(stmts)),
        Err(_) => None,
    }
}

/// The resolver after its pending assignments, given the loaded modules as it asks for them, and
/// the module that it waits for.
pub open spec fn prepared(resolver: ResolverView, loads: Seq<LoadView>, fuel: nat) -> (
    ResolverView,
    Option<Seq<Seq<char>>>,
)
    decreases fuel,
{
    let (after, needed) = resolver.after_rounds();
    match needed {
        None => (after, None),
        Some(path) => match load_from(loads, path, 0) {
            Some(result) if fuel > 0 => prepared(
                after.with_module(path, constants_of(result)),
                loads,
                (fuel - 1) as nat,
            ),
            _ => (after, Some(path)),
        },
    }
}

impl PassView {
    /// The outcome of passes over a module, the resolver being given the loaded modules as it asks
    /// for them.
    pub open spec fn outcome(
        self,
        file: Seq<char>,
        path: Seq<Seq<char>>,
        stmts: Seq<StmtView>,
        resolver: ResolverView,
        fuel: nat,
    ) -> Result<DiscoveryView, ErrorView>
        decreases fuel,
    {
        match self.result(file, path, stmts, resolver) {
            Ok((tests, warnings)) => Ok(DiscoveryView::Found(tests, warnings)),
            Err(StopView::Error(error)) => Err(error),
            Err(StopView::Classes(needed)) => Ok(DiscoveryView::Needs(needed)),
            Err(StopView::Constants(needed)) => match load_from(self.loads, needed, 0) {
                Some(result) if fuel > 0 => self.outcome(
                    file,
                    path,
                    stmts,
                    resolver.with_module(needed, constants_of(result)),
                    (fuel - 1) as nat,
                ),
                _ => Ok(DiscoveryView::Needs(needed)),
            },
        }
    }

    /// What discovery comes to on a parsed file.
    pub open spec fn discovered(
        self,
        file: Seq<char>,
        path: Seq<Seq<char>>,
        stmts: Seq<StmtView>,
    ) -> Result<DiscoveryView, ErrorView> {
        let (resolver, needed) = prepared(
            fresh_resolver(stmts, path, true),
            self.loads,
            self.loads.len(),
        );
        match needed {
            Some(module) => Ok(DiscoveryView::Needs(module)),
            None => self.outcome(file, path, stmts, resolver, self.loads.len()),
        }
    }
}

/// Adds what loading a module came to.
fn learn(resolver: &mut ConstantResolver, path: Vec<String>, load: &ModuleLoad)
    ensures
        final(resolver)@ == old(resolver)@.with_module(texts(path@), constants_of(load@.result)),
{
    match &load.result {
        Ok(loaded) => resolver.add_module(path, Some(&loaded.module)),
        Err(_) => resolver.add_module(path, None),
    }
}

/// Folds the resolver's pending assignments, giving it the loaded modules as it asks for them. The
/// error is a module that it waits for.
fn prepare(resolver: ConstantResolver, loads: &[ModuleLoad]) -> (r: Result<
    ConstantResolver,
    Vec<String>,
>)
    ensures
        ({
            let views = load_views(loads@);
            let ready = prepared(resolver@, views, views.len());
            match r {
                Ok(done) => ready == (done@, None::<Seq<Seq<char>>>),
                Err(needed) => ready.1 == Some(texts(needed@)),
            }
        }),
{
    let ghost views = load_views(loads@);
    let ghost ready = prepared(resolver@, views, views.len());
    let mut current = resolver;
    let mut fuel: usize = loads.len();
    loop
        invariant
            views == load_views(loads@),
            ready == prepared(resolver@, views, views.len()),
            ready == prepared(current@, views, fuel as nat),
        decreases fuel,
    {
        match current.resolve_pending_assignments() {
            None => {
                return Ok(current);
            },
            Some(needed) => match find_load(loads, needed.as_slice()) {
                Some(load) if fuel > 0 => {
                    learn(&mut current, needed, load);
                    fuel = fuel - 1;
                },
                _ => {
                    return Err(needed);
                },
            },
        }
    }
}

impl<'a> Pass<'a> {
    /// Goes over a module, giving the resolver the loaded modules as it asks for them.
    fn run_with(
        &self,
        file: &str,
        path: &[String],
        module: &PyModule,
        resolver: ConstantResolver,
    ) -> (r: CollectionResult<Discovery>)
        ensures
            match r {
                Ok(found) => self@.outcome(
                    file@,
                    texts(path@),
                    module@,
                    resolver@,
                    self@.loads.len(),
                ) == Ok::<DiscoveryView, ErrorView>(found@),
                Err(error) => self@.outcome(
                    file@,
                    texts(path@),
                    module@,
                    resolver@,
                    self@.loads.len(),
                ) == Err::<DiscoveryView, ErrorView>(error@),
            },
    {
        let ghost whole = self@.outcome(
            file@,
            texts(path@),
            module@,
            resolver@,
            self@.loads.len(),
        );
        let mut current = resolver;
        let mut fuel: usize = self.loads.len();
        loop
            invariant
                whole == self@.outcome(
                    file@,
                    texts(path@),
                    module@,
                    resolver@,
                    self@.loads.len(),
                ),
                whole == self@.outcome(file@, texts(path@), module@, current@, fuel as nat),
            decreases fuel,
        {
            match self.run(file, path, module, &current) {
                Ok((tests, warnings)) => {
                    return Ok(Discovery::Found(tests, warnings));
                },
                Err(Stop::Error(error)) => {
                    return Err(error);
                },
                Err(Stop::Classes(needed)) => {
                    return Ok(Discovery::Needs(needed));
                },
                Err(Stop::Constants(needed)) => match find_load(self.loads, needed.as_slice()) {
                    Some(load) if fuel > 0 => {
                        learn(&mut current, needed, load);
                        fuel = fuel - 1;
                    },
                    _ => {
                        return Ok(Discovery::Needs(needed));
                    },
                },
            }
        }
    }
}

/// Enhanced test discovery with semantic analysis
#[derive(Debug)]
pub struct SemanticTestDiscovery {
    pub config: TestDiscoveryConfig,
}

impl SemanticTestDiscovery {
    pub fn new(config: TestDiscoveryConfig) -> (r: Self)
        ensures
            r.config == config,
    {
        SemanticTestDiscovery { config }
    }

    /// Discover the tests of a parsed file, given the modules that have been loaded so far.
    pub fn discover_in_module(
        &self,
        file: &str,
        module: &PyModule,
        path: &[String],
        loads: &[ModuleLoad],
    ) -> (r: CollectionResult<Discovery>)
        ensures
            ({
                let pass = PassView { config: self.config@, loads: load_views(loads@) };
                match r {
                    Ok(found) => pass.discovered(file@, texts(path@), module@) == Ok::<
                        DiscoveryView,
                        ErrorView,
                    >(found@),
                    Err(error) => pass.discovered(file@, texts(path@), module@) == Err::<
                        DiscoveryView,
                        ErrorView,
                    >(error@),
                }
            }),
    {
        let pass = Pass { config: &self.config, loads };
        match prepare(ConstantResolver::from_module_with_imports(module, path), loads) {
            Err(needed) => Ok(Discovery::Needs(needed)),
            Ok(resolver) => pass.run_with(file, path, module, resolver),
        }
    }

    /// Discover tests in a module with full import resolution, given the modules that have been
    /// loaded so far.
    pub fn discover_tests(
        &self,
        file: &str,
        source: &str,
        path: &[String],
        loads: &[ModuleLoad],
    ) -> (r: CollectionResult<Discovery>)
        ensures
            ({
                let pass = PassView { config: self.config@, loads: load_views(loads@) };
                match parse_result(source@) {
                    Err(message) => r matches Err(error) && error@ == parse_failure(
                        file@,
                        message,
                    ),
                    Ok(stmts) => match r {
                        Ok(found) => pass.discovered(file@, texts(path@), stmts) == Ok::<
                            DiscoveryView,
                            ErrorView,
                        >(found@),
                        Err(error) => pass.discovered(file@, texts(path@), stmts) == Err::<
                            DiscoveryView,
                            ErrorView,
                        >(error@),
                    },
                }
            }),
    {
        match parse(source) {
            Err(message) => Err(parse_error(file, message.as_str())),
            Ok(module) => self.discover_in_module(file, &module, path, loads),
        }
    }
}

} // verus!
