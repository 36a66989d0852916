//! Resolves compile-time constants from Python source.
//!
//! A resolver holds the scope trees of the modules it knows and resolves constant expressions
//! like `X`, `Color.RED`, or `Outer.Inner.VALUE`, in the current module and through its imports.
//! It reads no files: where a lookup depends on a module that is not known yet, the lookup answers
//! with the path of that module, and is repeated once the module has been added.

use crate::python_discovery::cases::{value_views, LiteralValue, ValueView};
use crate::python_discovery::constants::{
    as_member, class_member, defining_enum_class, element_views, enum_definer, expr_to_path,
    insert_constant_at_class_path, is_enum_at, is_enum_class, is_enum_class_name, is_enum_path,
    names_enum, path_of, scope_of, scope_views, str_texts, value_at, with_constant_at,
    wrap_enum_member, ConstantScope, PendingElement, PendingView, ScopeView,
};
use crate::python_discovery::module_resolver::{
    absolute_import, prefix_and, resolve_relative_import,
};
use crate::python_discovery::stdlib::{in_standard_library, is_known_standard_library};
use crate::python_discovery::syntax::{
    alias_views, stmt_views, AliasView, ExprView, PyAlias, PyExpr, PyModule, PyStmt, StmtView,
};
use crate::strings::{copy, copy_all, pieces, same, same_all, split, str_text, text_of, texts};
use crate::table::{entry, insert, keys, names, place_of, with_entry};
use vstd::prelude::*;

verus! {

/// Maximum import-chain depth when loading modules on demand.
pub const MAX_IMPORT_DEPTH: usize = 8;

/// How often the pending assignments of all modules are gone through.
pub const MAX_PENDING_ROUNDS: usize = 8;

// ---------------------------------------------------------------------------------------------
// Imports
// ---------------------------------------------------------------------------------------------
/// Binding created by `import` / `from ... import`.
#[derive(Debug)]
pub struct ImportBinding {
    pub mod_path: Vec<String>,
    /// Empty for `import foo` (the local name is a module). Non-empty for
    /// `from foo import Bar` (the local name is `Bar` inside `foo`).
    pub imported_name: String,
    pub relative_level: usize,
}

/// View of an [`ImportBinding`].
pub ghost struct BindingView {
    pub mod_path: Seq<Seq<char>>,
    pub imported_name: Seq<char>,
    pub relative_level: nat,
}

impl ImportBinding {
    pub open spec fn view(&self) -> BindingView {
        BindingView {
            mod_path: texts(self.mod_path@),
            imported_name: self.imported_name@,
            relative_level: self.relative_level as nat,
        }
    }
}

pub open spec fn binding_views(list: Seq<(String, ImportBinding)>) -> Seq<
    (Seq<char>, BindingView),
> {
    Seq::new(list.len(), |i: int| (list[i].0@, list[i].1@))
}

/// The local name that an import name binds, where the name itself is the default.
pub open spec fn local_name(alias: AliasView) -> Seq<char> {
    match alias.asname {
        Some(name) => name,
        None => alias.name,
    }
}

/// The path that a dotted name stands for.
pub open spec fn dotted_path(name: Seq<char>) -> Seq<Seq<char>> {
    pieces(name, '.')
}

/// The path behind `from`, where there is a name.
pub open spec fn from_path(module: Option<Seq<char>>) -> Seq<Seq<char>> {
    match module {
        Some(name) => dotted_path(name),
        None => seq![],
    }
}

/// `done` with the bindings of `from module import names`, from the `i`-th name on. A star
/// import binds nothing.
pub open spec fn from_bindings(
    names: Seq<AliasView>,
    i: int,
    mod_path: Seq<Seq<char>>,
    level: nat,
    done: Seq<(Seq<char>, BindingView)>,
) -> Seq<(Seq<char>, BindingView)>
    decreases names.len() - i,
{
    if i < 0 || i >= names.len() {
        done
    } else if names[i].name == "*"@ {
        from_bindings(names, i + 1, mod_path, level, done)
    } else {
        from_bindings(
            names,
            i + 1,
            mod_path,
            level,
            with_entry(
                done,
                local_name(names[i]),
                BindingView { mod_path, imported_name: names[i].name, relative_level: level },
            ),
        )
    }
}

/// `done` with the bindings of `import names`, from the `i`-th name on: `import a.b as c` binds
/// `c` to `a.b`, `import a.b` binds `a`.
pub open spec fn import_bindings(
    names: Seq<AliasView>,
    i: int,
    done: Seq<(Seq<char>, BindingView)>,
) -> Seq<(Seq<char>, BindingView)>
    decreases names.len() - i,
{
    if i < 0 || i >= names.len() {
        done
    } else {
        let path = dotted_path(names[i].name);
        let next = match names[i].asname {
            Some(asname) => with_entry(
                done,
                asname,
                BindingView { mod_path: path, imported_name: seq![], relative_level: 0 },
            ),
            None => with_entry(
                done,
                path[0],
                BindingView {
                    mod_path: seq![path[0]],
                    imported_name: seq![],
                    relative_level: 0,
                },
            ),
        };
        import_bindings(names, i + 1, next)
    }
}

/// `done` with the bindings of the import statements from the `i`-th statement on.
pub open spec fn bindings_from(
    stmts: Seq<StmtView>,
    i: int,
    done: Seq<(Seq<char>, BindingView)>,
) -> Seq<(Seq<char>, BindingView)>
    decreases stmts.len() - i,
{
    if i < 0 || i >= stmts.len() {
        done
    } else {
        let next = match stmts[i] {
            StmtView::ImportFrom { module, names, level } => from_bindings(
                names,
                0,
                from_path(module),
                level as nat,
                done,
            ),
            StmtView::Import { names } => import_bindings(names, 0, done),
            _ => done,
        };
        bindings_from(stmts, i + 1, next)
    }
}

proof fn lemma_binding_names(list: Seq<(String, ImportBinding)>)
    ensures
        names(list) == keys(binding_views(list)),
{
    assert(names(list) =~= keys(binding_views(list)));
}

fn bind(imports: &mut Vec<(String, ImportBinding)>, name: String, binding: ImportBinding)
    ensures
        binding_views(final(imports)@) == with_entry(
            binding_views(old(imports)@),
            name@,
            binding@,
        ),
{
    let ghost before = imports@;
    proof {
        lemma_binding_names(before);
    }
    let ghost n = name@;
    let ghost b = binding@;
    insert(imports, name, binding);
    assert(binding_views(imports@) =~= with_entry(binding_views(before), n, b));
}

fn bind_from(
    imports: &mut Vec<(String, ImportBinding)>,
    module: &Option<String>,
    aliases: &[PyAlias],
    level: u32,
)
    ensures
        binding_views(final(imports)@) == from_bindings(
            alias_views(aliases@),
            0,
            from_path(text_of(*module)),
            level as nat,
            binding_views(old(imports)@),
        ),
{
    let mod_path: Vec<String> = match module {
        Some(name) => split(name.as_str(), '.'),
        None => Vec::new(),
    };
    let ghost path = from_path(text_of(*module));
    assert(texts(mod_path@) =~= path);
    let ghost start = binding_views(imports@);
    let ghost views = alias_views(aliases@);
    let mut i: usize = 0;
    while i < aliases.len()
        invariant
            i <= aliases@.len(),
            views == alias_views(aliases@),
            texts(mod_path@) == path,
            from_bindings(views, 0, path, level as nat, start) == from_bindings(
                views,
                i as int,
                path,
                level as nat,
                binding_views(imports@),
            ),
        decreases aliases@.len() - i,
    {
        let alias = &aliases[i];
        assert(views[i as int] == alias@);
        if !same(alias.name.as_str(), "*") {
            let local = match &alias.asname {
                Some(name) => copy(name.as_str()),
                None => copy(alias.name.as_str()),
            };
            bind(
                imports,
                local,
                ImportBinding {
                    mod_path: copy_all(mod_path.as_slice()),
                    imported_name: copy(alias.name.as_str()),
                    relative_level: level as usize,
                },
            );
        }
        i = i + 1;
    }
}

fn bind_modules(imports: &mut Vec<(String, ImportBinding)>, aliases: &[PyAlias])
    ensures
        binding_views(final(imports)@) == import_bindings(
            alias_views(aliases@),
            0,
            binding_views(old(imports)@),
        ),
{
    let ghost start = binding_views(imports@);
    let ghost views = alias_views(aliases@);
    let mut i: usize = 0;
    while i < aliases.len()
        invariant
            i <= aliases@.len(),
            views == alias_views(aliases@),
            import_bindings(views, 0, start) == import_bindings(
                views,
                i as int,
                binding_views(imports@),
            ),
        decreases aliases@.len() - i,
    {
        let alias = &aliases[i];
        assert(views[i as int] == alias@);
        let parts = split(alias.name.as_str(), '.');
        let ghost path = dotted_path(alias.name@);
        assert(texts(parts@) == path);
        let none = String::new();
        assert(none@ =~= Seq::<char>::empty());
        match &alias.asname {
            Some(asname) => {
                bind(
                    imports,
                    copy(asname.as_str()),
                    ImportBinding {
                        mod_path: parts,
                        imported_name: none,
                        relative_level: 0,
                    },
                );
            },
            None => {
                let mut mod_path: Vec<String> = Vec::new();
                mod_path.push(copy(parts[0].as_str()));
                assert(texts(parts@)[0] == parts@[0]@);
                assert(texts(mod_path@) =~= seq![path[0]]);
                bind(
                    imports,
                    copy(parts[0].as_str()),
                    ImportBinding { mod_path, imported_name: none, relative_level: 0 },
                );
            },
        }
        i = i + 1;
    }
}

/// The bindings that the import statements of a module make.
pub fn collect_imports(module: &PyModule) -> (r: Vec<(String, ImportBinding)>)
    ensures
        binding_views(r@) == bindings_from(module@, 0, seq![]),
{
    let ghost views = module@;
    let mut imports: Vec<(String, ImportBinding)> = Vec::new();
    assert(binding_views(imports@) =~= Seq::<(Seq<char>, BindingView)>::empty());
    let mut i: usize = 0;
    while i < module.body.len()
        invariant
            i <= module.body@.len(),
            views == stmt_views(module.body@),
            bindings_from(views, 0, seq![]) == bindings_from(
                views,
                i as int,
                binding_views(imports@),
            ),
        decreases module.body@.len() - i,
    {
        assert(views[i as int] == module.body@[i as int]@);
        match &module.body[i] {
            PyStmt::ImportFrom { module: from, names, level } => {
                bind_from(&mut imports, from, names.as_slice(), *level);
            },
            PyStmt::Import { names } => {
                bind_modules(&mut imports, names.as_slice());
            },
            _ => {},
        }
        i = i + 1;
    }
    imports
}

// ---------------------------------------------------------------------------------------------
// Known modules
// ---------------------------------------------------------------------------------------------
/// What a resolver keeps of a module's source.
#[derive(Debug)]
pub struct LoadedModule {
    pub scope: ConstantScope,
    pub imports: Vec<(String, ImportBinding)>,
}

/// View of a [`LoadedModule`].
pub ghost struct ModuleView {
    pub scope: ScopeView,
    pub imports: Seq<(Seq<char>, BindingView)>,
}

/// What a resolver keeps of a module with these statements.
pub open spec fn module_of(stmts: Seq<StmtView>) -> ModuleView {
    ModuleView { scope: scope_of(stmts), imports: bindings_from(stmts, 0, seq![]) }
}

impl LoadedModule {
    pub open spec fn view(&self) -> ModuleView {
        ModuleView { scope: self.scope@, imports: binding_views(self.imports@) }
    }

    /// What is kept of a parsed module.
    pub fn from_module(module: &PyModule) -> (r: Self)
        ensures
            r@ == module_of(module@),
    {
        LoadedModule {
            scope: ConstantScope::from_statements(module.body.as_slice()),
            imports: collect_imports(module),
        }
    }

    /// The binding that an import makes for a name.
    pub fn import(&self, name: &str) -> (r: Option<&ImportBinding>)
        ensures
            match r {
                Some(binding) => entry(self@.imports, name@) == Some(binding@),
                None => entry(self@.imports, name@) is None,
            },
    {
        proof {
            lemma_binding_names(self.imports@);
        }
        let at = place_of(self.imports.as_slice(), name);
        if at < self.imports.len() {
            Some(&self.imports[at].1)
        } else {
            None
        }
    }
}

/// A module that a resolver has asked for: its contents, or nothing where it could not be loaded.
#[derive(Debug)]
pub struct KnownModule {
    pub path: Vec<String>,
    pub loaded: Option<LoadedModule>,
}

/// View of a [`KnownModule`].
pub ghost struct KnownView {
    pub path: Seq<Seq<char>>,
    pub loaded: Option<ModuleView>,
}

impl KnownModule {
    pub open spec fn view(&self) -> KnownView {
        KnownView {
            path: texts(self.path@),
            loaded: match self.loaded {
                Some(module) => Some(module@),
                None => None,
            },
        }
    }
}

pub open spec fn known_views(list: Seq<KnownModule>) -> Seq<KnownView> {
    Seq::new(list.len(), |i: int| list[i].view())
}

/// The first module from `i` on with that path.
pub open spec fn known_from(modules: Seq<KnownView>, path: Seq<Seq<char>>, i: int) -> Option<
    KnownView,
>
    decreases modules.len() - i,
{
    if i < 0 || i >= modules.len() {
        None
    } else if modules[i].path == path {
        Some(modules[i])
    } else {
        known_from(modules, path, i + 1)
    }
}

/// The number of classes at the top levels of the modules.
pub open spec fn class_total(modules: Seq<KnownView>) -> nat
    decreases modules.len(),
{
    if modules.len() == 0 {
        0
    } else {
        class_total(modules.drop_last()) + match modules.last().loaded {
            Some(module) => module.scope.children.len(),
            None => 0,
        }
    }
}

/// [`class_total`], as far as it can be counted.
pub open spec fn class_bound(modules: Seq<KnownView>) -> nat {
    let total = class_total(modules);
    if total > usize::MAX {
        usize::MAX as nat
    } else {
        total
    }
}

/// A constant resolved from a name or attribute expression.
#[derive(Debug, PartialEq)]
pub struct ResolvedConstant {
    pub value: LiteralValue,
    /// Source path as written (`["Color", "RED"]` or `["DATA"]`).
    pub source_path: Vec<String>,
    /// True when the value is a member of an `Enum` subclass.
    pub is_enum_member: bool,
}

/// View of a [`ResolvedConstant`].
pub ghost struct ResolvedView {
    pub value: ValueView,
    pub source_path: Seq<Seq<char>>,
    pub is_enum_member: bool,
}

impl ResolvedConstant {
    pub open spec fn view(&self) -> ResolvedView {
        ResolvedView {
            value: self.value@,
            source_path: texts(self.source_path@),
            is_enum_member: self.is_enum_member,
        }
    }
}

/// Resolver for constant expressions in a module.
#[derive(Debug)]
pub struct ConstantResolver {
    pub current_path: Vec<String>,
    pub modules: Vec<KnownModule>,
    /// True when imported modules may be asked for.
    pub follows_imports: bool,
    /// The finished rounds of the pending assignments, and the modules that the present round
    /// goes through.
    pub rounds_done: usize,
    pub round_modules: usize,
}

/// View of a [`ConstantResolver`].
pub ghost struct ResolverView {
    pub current_path: Seq<Seq<char>>,
    pub modules: Seq<KnownView>,
    pub follows_imports: bool,
    pub rounds_done: nat,
    pub round_modules: nat,
}

// ---------------------------------------------------------------------------------------------
// Lookup through modules
// ---------------------------------------------------------------------------------------------
/// What a lookup comes to: a value and whether it is an enum member, nothing, or a module that
/// has to be loaded first.
pub ghost enum LookupView {
    Found(ValueView, bool),
    Missing,
    Needs(Seq<Seq<char>>),
}

/// A lookup in running code: the error is the path of a module that has to be loaded first.
pub type Lookup = Result<Option<(LiteralValue, bool)>, Vec<String>>;

pub open spec fn lookup_view(r: Lookup) -> LookupView {
    match r {
        Ok(Some((value, is_enum))) => LookupView::Found(value@, is_enum),
        Ok(None) => LookupView::Missing,
        Err(path) => LookupView::Needs(texts(path@)),
    }
}

/// Modules that are never looked into: Python's own, `pytest` and `rtest`.
pub open spec fn is_skipped(path: Seq<Seq<char>>) -> bool {
    path.len() > 0 && (in_standard_library(11, path[0]) || path[0] == "pytest"@ || path[0]
        == "rtest"@)
}

pub fn is_skipped_module(path: &[String]) -> (r: bool)
    ensures
        r == is_skipped(texts(path@)),
{
    if path.len() == 0 {
        return false;
    }
    let name = path[0].as_str();
    is_known_standard_library(11, name) || same(name, "pytest") || same(name, "rtest")
}

/// The depth one import further; past the maximum it is no longer counted.
pub open spec fn deeper(depth: nat) -> nat {
    if depth > MAX_IMPORT_DEPTH {
        depth
    } else {
        depth + 1
    }
}

impl ResolverView {
    /// The module's contents, where it is known and could be loaded.
    pub open spec fn loaded(self, path: Seq<Seq<char>>) -> Option<ModuleView> {
        match known_from(self.modules, path, 0) {
            Some(known) => known.loaded,
            None => None,
        }
    }

    /// A lookup that has come to `path` at this depth of the import chain asks for the module.
    pub open spec fn wants(self, path: Seq<Seq<char>>, depth: nat) -> bool {
        known_from(self.modules, path, 0) is None && depth <= MAX_IMPORT_DEPTH
            && self.follows_imports && !is_skipped(path)
    }

    /// The member of a class: one that its module's scope gives, or one that a base class from
    /// another module has.
    pub open spec fn member(
        self,
        path: Seq<Seq<char>>,
        class: Seq<char>,
        member: Seq<char>,
        depth: nat,
        fuel: nat,
    ) -> LookupView
        decreases fuel, 0int, 0int,
    {
        match self.loaded(path) {
            None => LookupView::Missing,
            Some(module) => {
                let levels = module.scope.children.len();
                match class_member(module.scope, class, member, levels) {
                    Some(value) => LookupView::Found(
                        value,
                        is_enum_class(module.scope, class, levels) || enum_definer(
                            module.scope,
                            class,
                            member,
                            levels,
                        ) is Some,
                    ),
                    None => match entry(module.scope.children, class) {
                        None => LookupView::Missing,
                        Some(found) => if fuel == 0 {
                            LookupView::Missing
                        } else {
                            self.member_of_imported(
                                path,
                                module.imports,
                                found.bases,
                                0,
                                member,
                                depth,
                                (fuel - 1) as nat,
                            )
                        },
                    },
                }
            },
        }
    }

    /// The first `member` that one of the imported base classes from `i` on has.
    pub open spec fn member_of_imported(
        self,
        path: Seq<Seq<char>>,
        imports: Seq<(Seq<char>, BindingView)>,
        bases: Seq<Seq<char>>,
        i: int,
        member: Seq<char>,
        depth: nat,
        fuel: nat,
    ) -> LookupView
        decreases fuel, 1int, bases.len() - i,
    {
        if i < 0 || i >= bases.len() {
            LookupView::Missing
        } else {
            let found = if names_enum(bases[i]) {
                LookupView::Missing
            } else {
                match entry(imports, bases[i]) {
                    None => LookupView::Missing,
                    Some(import) => match absolute_import(
                        path,
                        import.relative_level,
                        import.mod_path,
                    ) {
                        None => LookupView::Missing,
                        Some(target) => if import.imported_name.len() == 0 {
                            LookupView::Missing
                        } else if self.wants(target, deeper(depth)) {
                            LookupView::Needs(target)
                        } else {
                            self.member(target, import.imported_name, member, deeper(depth), fuel)
                        },
                    },
                }
            };
            if found is Missing {
                self.member_of_imported(path, imports, bases, i + 1, member, depth, fuel)
            } else {
                found
            }
        }
    }

    /// The value at the path `rest` inside a class of the module.
    pub open spec fn in_class(
        self,
        path: Seq<Seq<char>>,
        class: Seq<char>,
        rest: Seq<Seq<char>>,
        depth: nat,
    ) -> LookupView {
        if rest.len() == 0 {
            LookupView::Missing
        } else if rest.len() == 1 {
            self.member(path, class, rest[0], depth, class_bound(self.modules))
        } else {
            match self.loaded(path) {
                None => LookupView::Missing,
                Some(module) => match entry(module.scope.children, class) {
                    None => LookupView::Missing,
                    Some(found) => if entry(found.children, rest[0]) is None {
                        LookupView::Missing
                    } else {
                        match value_at(module.scope, seq![class] + rest) {
                            Some(value) => LookupView::Found(
                                value,
                                is_enum_at(module.scope, seq![class] + rest),
                            ),
                            None => LookupView::Missing,
                        }
                    },
                },
            }
        }
    }

    /// The value of a name: a member of the enclosing class, a constant of the module, a pending
    /// sequence whose elements can be resolved, or what an import binds. A sequence that a lookup
    /// resolves stays pending: each lookup counts the chain of imports from where it starts.
    pub open spec fn at_name(
        self,
        path: Seq<Seq<char>>,
        enclosing_class: Option<Seq<char>>,
        name: Seq<char>,
        depth: nat,
    ) -> LookupView
        decreases MAX_IMPORT_DEPTH + 1 - depth, 1int, 0int,
    {
        let own = match enclosing_class {
            Some(class) => self.member(path, class, name, depth, class_bound(self.modules)),
            None => LookupView::Missing,
        };
        if depth > MAX_IMPORT_DEPTH {
            LookupView::Missing
        } else if !(own is Missing) {
            own
        } else {
            match self.loaded(path) {
                None => LookupView::Missing,
                Some(module) => match entry(module.scope.constants, name) {
                    Some(value) => LookupView::Found(value, false),
                    None => {
                        let pending = match entry(module.scope.pending, name) {
                            Some(elements) => self.sequence_from(path, elements, 0, seq![], depth),
                            None => LookupView::Missing,
                        };
                        if !(pending is Missing) {
                            pending
                        } else {
                            match entry(module.imports, name) {
                                None => LookupView::Missing,
                                Some(import) => match absolute_import(
                                    path,
                                    import.relative_level,
                                    import.mod_path,
                                ) {
                                    None => LookupView::Missing,
                                    Some(target) => if import.imported_name.len() == 0 {
                                        LookupView::Missing
                                    } else if self.wants(target, depth + 1) {
                                        LookupView::Needs(target)
                                    } else {
                                        self.at_name(
                                            target,
                                            None,
                                            import.imported_name,
                                            depth + 1,
                                        )
                                    },
                                },
                            }
                        }
                    },
                },
            }
        }
    }

    /// The sequence of `done` and the values of the elements from `i` on, if each has one.
    pub open spec fn sequence_from(
        self,
        path: Seq<Seq<char>>,
        elements: Seq<PendingView>,
        i: int,
        done: Seq<ValueView>,
        depth: nat,
    ) -> LookupView
        decreases MAX_IMPORT_DEPTH + 1 - depth, 0int, elements.len() - i,
    {
        if depth > MAX_IMPORT_DEPTH {
            LookupView::Missing
        } else if i < 0 || i >= elements.len() {
            LookupView::Found(ValueView::Sequence(done), false)
        } else {
            match elements[i] {
                PendingView::Literal(value) => self.sequence_from(
                    path,
                    elements,
                    i + 1,
                    done.push(value),
                    depth,
                ),
                PendingView::Path(target) => match self.at_path(path, None, target, depth + 1) {
                    LookupView::Found(value, is_enum) => self.sequence_from(
                        path,
                        elements,
                        i + 1,
                        done.push(as_member(value, is_enum, target)),
                        depth,
                    ),
                    other => other,
                },
            }
        }
    }

    /// The value at a path, seen from a module. The chain of imports is followed up to
    /// [`MAX_IMPORT_DEPTH`].
    pub open spec fn at_path(
        self,
        path: Seq<Seq<char>>,
        enclosing_class: Option<Seq<char>>,
        target: Seq<Seq<char>>,
        depth: nat,
    ) -> LookupView
        decreases MAX_IMPORT_DEPTH + 1 - depth, 2int, 0int,
    {
        if depth > MAX_IMPORT_DEPTH || target.len() == 0 {
            LookupView::Missing
        } else if target.len() == 1 {
            self.at_name(path, enclosing_class, target[0], depth)
        } else {
            match self.loaded(path) {
                None => LookupView::Missing,
                Some(module) => if entry(module.scope.children, target[0]) is Some {
                    self.in_class(path, target[0], target.drop_first(), depth)
                } else {
                    match entry(module.imports, target[0]) {
                        None => LookupView::Missing,
                        Some(import) => match absolute_import(
                            path,
                            import.relative_level,
                            import.mod_path,
                        ) {
                            None => LookupView::Missing,
                            Some(abs) => if self.wants(abs, depth + 1) {
                                LookupView::Needs(abs)
                            } else if import.imported_name.len() == 0 {
                                self.at_path(abs, None, target.drop_first(), depth + 1)
                            } else {
                                self.at_path(
                                    abs,
                                    None,
                                    seq![import.imported_name] + target.drop_first(),
                                    depth + 1,
                                )
                            },
                        },
                    }
                },
            }
        }
    }

    /// What a name or attribute expression resolves to in the current module.
    pub open spec fn resolution(self, enclosing_class: Option<Seq<char>>, e: ExprView) -> Result<
        Option<ResolvedView>,
        Seq<Seq<char>>,
    > {
        match path_of(e) {
            None => Ok(None),
            Some(path) => match self.at_path(self.current_path, enclosing_class, path, 0) {
                LookupView::Found(value, is_enum) => Ok(
                    Some(
                        ResolvedView {
                            value: as_member(value, is_enum, path),
                            source_path: path,
                            is_enum_member: is_enum,
                        },
                    ),
                ),
                LookupView::Missing => Ok(None),
                LookupView::Needs(module) => Err(module),
            },
        }
    }
}

impl ConstantResolver {
    pub open spec fn view(&self) -> ResolverView {
        ResolverView {
            current_path: texts(self.current_path@),
            modules: known_views(self.modules@),
            follows_imports: self.follows_imports,
            rounds_done: self.rounds_done as nat,
            round_modules: self.round_modules as nat,
        }
    }

    /// The place of a module among the known ones.
    fn place_of_module(&self, path: &[String]) -> (r: Option<usize>)
        ensures
            match r {
                Some(at) => at < self.modules@.len() && known_from(self@.modules, texts(path@), 0)
                    == Some(self.modules@[at as int]@),
                None => known_from(self@.modules, texts(path@), 0) is None,
            },
    {
        let mut at: usize = 0;
        while at < self.modules.len()
            invariant
                at <= self.modules@.len(),
                known_from(self@.modules, texts(path@), 0) == known_from(
                    self@.modules,
                    texts(path@),
                    at as int,
                ),
            decreases self.modules@.len() - at,
        {
            assert(self@.modules[at as int] == self.modules@[at as int]@);
            if same_all(self.modules[at].path.as_slice(), path) {
                return Some(at);
            }
            at = at + 1;
        }
        None
    }

    fn loaded(&self, path: &[String]) -> (r: Option<&LoadedModule>)
        ensures
            match r {
                Some(module) => self@.loaded(texts(path@)) == Some(module@),
                None => self@.loaded(texts(path@)) is None,
            },
    {
        match self.place_of_module(path) {
            Some(at) => match &self.modules[at].loaded {
                Some(module) => Some(module),
                None => None,
            },
            None => None,
        }
    }

    fn wants(&self, path: &[String], depth: usize) -> (r: bool)
        ensures
            r == self@.wants(texts(path@), depth as nat),
    {
        self.place_of_module(path).is_none() && depth <= MAX_IMPORT_DEPTH && self.follows_imports
            && !is_skipped_module(path)
    }

    fn class_count(&self) -> (r: usize)
        ensures
            r == class_bound(self@.modules),
    {
        let mut count: usize = 0;
        let mut i: usize = 0;
        assert(self@.modules.take(0) =~= Seq::<KnownView>::empty());
        while i < self.modules.len()
            invariant
                i <= self.modules@.len(),
                count == class_bound(self@.modules.take(i as int)),
            decreases self.modules@.len() - i,
        {
            proof {
                assert(self@.modules.take(i + 1).drop_last() =~= self@.modules.take(i as int));
                assert(self@.modules.take(i + 1).last() == self.modules@[i as int]@);
            }
            if let Some(module) = &self.modules[i].loaded {
                let more = module.scope.children.len();
                if count > usize::MAX - more {
                    count = usize::MAX;
                } else {
                    count = count + more;
                }
            }
            i = i + 1;
        }
        assert(self@.modules.take(self@.modules.len() as int) =~= self@.modules);
        count
    }

    fn lookup_class_member(
        &self,
        path: &[String],
        class_name: &str,
        member: &str,
        depth: usize,
        fuel: usize,
    ) -> (r: Lookup)
        ensures
            lookup_view(r) == self@.member(
                texts(path@),
                class_name@,
                member@,
                depth as nat,
                fuel as nat,
            ),
        decreases fuel,
    {
        let module = match self.loaded(path) {
            Some(module) => module,
            None => {
                return Ok(None);
            },
        };
        let scope = &module.scope;
        let levels = scope.children.len();
        if let Some(value) = scope.lookup_class_member(class_name, member, levels) {
            let is_enum = scope.class_is_enum(class_name, levels) || defining_enum_class(
                scope,
                class_name,
                member,
                levels,
            ).is_some();
            return Ok(Some((value, is_enum)));
        }
        let class = match scope.child(class_name) {
            Some(class) => class,
            None => {
                return Ok(None);
            },
        };
        if fuel == 0 {
            return Ok(None);
        }
        let ghost bases = texts(class.bases@);
        let ghost whole = self@.member(
            texts(path@),
            class_name@,
            member@,
            depth as nat,
            fuel as nat,
        );
        let next_depth: usize = if depth > MAX_IMPORT_DEPTH {
            depth
        } else {
            depth + 1
        };
        let mut i: usize = 0;
        while i < class.bases.len()
            invariant
                i <= class.bases@.len(),
                fuel > 0,
                bases == texts(class.bases@),
                next_depth == deeper(depth as nat),
                whole == self@.member(
                    texts(path@),
                    class_name@,
                    member@,
                    depth as nat,
                    fuel as nat,
                ),
                whole == self@.member_of_imported(
                    texts(path@),
                    module@.imports,
                    bases,
                    i as int,
                    member@,
                    depth as nat,
                    (fuel - 1) as nat,
                ),
            ensures
                whole is Missing,
            decreases class.bases@.len() - i,
        {
            let base = &class.bases[i];
            assert(bases[i as int] == base@);
            i = i + 1;
            if is_enum_class_name(base.as_str()) {
                continue;
            }
            if let Some(import) = module.import(base.as_str()) {
                let target = match resolve_relative_import(
                    path,
                    import.relative_level,
                    import.mod_path.as_slice(),
                ) {
                    Some(target) => target,
                    None => {
                        continue;
                    },
                };
                if import.imported_name.as_str().is_empty() {
                    continue;
                }
                if self.wants(target.as_slice(), next_depth) {
                    return Err(target);
                }
                match self.lookup_class_member(
                    target.as_slice(),
                    import.imported_name.as_str(),
                    member,
                    next_depth,
                    fuel - 1,
                ) {
                    Ok(None) => {},
                    found => {
                        return found;
                    },
                }
            }
        }
        Ok(None)
    }

    fn lookup_class_path(
        &self,
        path: &[String],
        class_name: &str,
        rest: &[String],
        depth: usize,
    ) -> (r: Lookup)
        ensures
            lookup_view(r) == self@.in_class(
                texts(path@),
                class_name@,
                texts(rest@),
                depth as nat,
            ),
    {
        if rest.len() == 0 {
            return Ok(None);
        }
        if rest.len() == 1 {
            return self.lookup_class_member(
                path,
                class_name,
                rest[0].as_str(),
                depth,
                self.class_count(),
            );
        }
        match self.loaded(path) {
            None => Ok(None),
            Some(module) => match module.scope.child(class_name) {
                None => Ok(None),
                Some(class) => {
                    if class.child(rest[0].as_str()).is_none() {
                        return Ok(None);
                    }
                    let mut full_path: Vec<&str> = Vec::new();
                    full_path.push(class_name);
                    let mut i: usize = 0;
                    while i < rest.len()
                        invariant
                            i <= rest@.len(),
                            full_path@.len() == i + 1,
                            full_path@[0]@ == class_name@,
                            forall|j: int|
                                1 <= j < full_path@.len() ==> (#[trigger] full_path@[j])@
                                    == rest@[j - 1]@,
                        decreases rest@.len() - i,
                    {
                        full_path.push(rest[i].as_str());
                        i = i + 1;
                    }
                    assert(str_texts(full_path@) =~= seq![class_name@] + texts(rest@));
                    match module.scope.resolve_path(full_path.as_slice()) {
                        Some(value) => {
                            let is_enum = is_enum_path(&module.scope, full_path.as_slice());
                            Ok(Some((value, is_enum)))
                        },
                        None => Ok(None),
                    }
                },
            },
        }
    }

    fn lookup_name(
        &self,
        path: &[String],
        enclosing_class: Option<&str>,
        name: &str,
        depth: usize,
    ) -> (r: Lookup)
        requires
            depth <= MAX_IMPORT_DEPTH,
        ensures
            lookup_view(r) == self@.at_name(
                texts(path@),
                str_text(enclosing_class),
                name@,
                depth as nat,
            ),
        decreases MAX_IMPORT_DEPTH + 1 - depth, 1int, 0int,
    {
        if let Some(class_name) = enclosing_class {
            match self.lookup_class_member(path, class_name, name, depth, self.class_count()) {
                Ok(None) => {},
                found => {
                    return found;
                },
            }
        }
        let module = match self.loaded(path) {
            Some(module) => module,
            None => {
                return Ok(None);
            },
        };
        if let Some(value) = module.scope.constant(name) {
            return Ok(Some((value.copy(), false)));
        }
        if let Some(elements) = module.scope.pending(name) {
            match self.resolve_pending_elements(path, elements.as_slice(), depth) {
                Ok(None) => {},
                found => {
                    return found;
                },
            }
        }
        let import = match module.import(name) {
            Some(import) => import,
            None => {
                return Ok(None);
            },
        };
        match resolve_relative_import(path, import.relative_level, import.mod_path.as_slice()) {
            None => Ok(None),
            Some(target) => {
                if import.imported_name.as_str().is_empty() {
                    return Ok(None);
                }
                if self.wants(target.as_slice(), depth + 1) {
                    return Err(target);
                }
                if depth == MAX_IMPORT_DEPTH {
                    assert(self@.at_name(
                        texts(target@),
                        None,
                        import.imported_name@,
                        (depth + 1) as nat,
                    ) is Missing);
                    return Ok(None);
                }
                self.lookup_name(target.as_slice(), None, import.imported_name.as_str(), depth + 1)
            },
        }
    }

    fn resolve_pending_elements(
        &self,
        path: &[String],
        elements: &[PendingElement],
        depth: usize,
    ) -> (r: Lookup)
        requires
            depth <= MAX_IMPORT_DEPTH,
        ensures
            lookup_view(r) == self@.sequence_from(
                texts(path@),
                element_views(elements@),
                0,
                seq![],
                depth as nat,
            ),
        decreases MAX_IMPORT_DEPTH + 1 - depth, 0int, 0int,
    {
        let ghost views = element_views(elements@);
        let ghost whole = self@.sequence_from(texts(path@), views, 0, seq![], depth as nat);
        let mut values: Vec<LiteralValue> = Vec::new();
        assert(value_views(values@) =~= Seq::<ValueView>::empty());
        let mut i: usize = 0;
        while i < elements.len()
            invariant
                i <= elements@.len(),
                depth <= MAX_IMPORT_DEPTH,
                views == element_views(elements@),
                whole == self@.sequence_from(texts(path@), views, 0, seq![], depth as nat),
                whole == self@.sequence_from(
                    texts(path@),
                    views,
                    i as int,
                    value_views(values@),
                    depth as nat,
                ),
            decreases elements@.len() - i,
        {
            let ghost before = values@;
            assert(views[i as int] == elements@[i as int]@);
            match &elements[i] {
                PendingElement::Literal(value) => {
                    values.push(value.copy());
                    assert(value_views(values@) =~= value_views(before).push(value@));
                },
                PendingElement::Path(target) => {
                    match self.lookup_path_at(path, None, target.as_slice(), depth + 1) {
                        Ok(Some((value, is_enum))) => {
                            let wrapped = wrap_enum_member(value, is_enum, target.as_slice());
                            let ghost w = wrapped@;
                            values.push(wrapped);
                            assert(value_views(values@) =~= value_views(before).push(w));
                        },
                        other => {
                            return other;
                        },
                    }
                },
            }
            i = i + 1;
        }
        Ok(Some((LiteralValue::Sequence(values), false)))
    }

    fn lookup_path_at(
        &self,
        path: &[String],
        enclosing_class: Option<&str>,
        target: &[String],
        depth: usize,
    ) -> (r: Lookup)
        requires
            depth <= MAX_IMPORT_DEPTH + 1,
        ensures
            lookup_view(r) == self@.at_path(
                texts(path@),
                str_text(enclosing_class),
                texts(target@),
                depth as nat,
            ),
        decreases MAX_IMPORT_DEPTH + 1 - depth, 2int, 0int,
    {
        if depth > MAX_IMPORT_DEPTH || target.len() == 0 {
            return Ok(None);
        }
        if target.len() == 1 {
            return self.lookup_name(path, enclosing_class, target[0].as_str(), depth);
        }
        let module = match self.loaded(path) {
            Some(module) => module,
            None => {
                return Ok(None);
            },
        };
        let first = target[0].as_str();
        let rest = vstd::slice::slice_subrange(target, 1, target.len());
        assert(texts(rest@) =~= texts(target@).drop_first());
        if module.scope.child(first).is_some() {
            return self.lookup_class_path(path, first, rest, depth);
        }
        let import = match module.import(first) {
            Some(import) => import,
            None => {
                return Ok(None);
            },
        };
        match resolve_relative_import(path, import.relative_level, import.mod_path.as_slice()) {
            None => Ok(None),
            Some(abs) => {
                if self.wants(abs.as_slice(), depth + 1) {
                    return Err(abs);
                }
                if import.imported_name.as_str().is_empty() {
                    self.lookup_path_at(abs.as_slice(), None, rest, depth + 1)
                } else {
                    let mut imported: Vec<String> = Vec::new();
                    imported.push(copy(import.imported_name.as_str()));
                    assert(texts(imported@) =~= seq![import.imported_name@]);
                    let imported_path = prefix_and(imported.as_slice(), 1, rest);
                    assert(texts(imported@).take(1) =~= texts(imported@));
                    self.lookup_path_at(abs.as_slice(), None, imported_path.as_slice(), depth + 1)
                }
            },
        }
    }

    /// Resolve an expression, optionally looking up names on an enclosing class first.
    ///
    /// The error is the path of a module that has to be added before the lookup can be finished.
    pub fn resolve_in_class(&self, enclosing_class: Option<&str>, expr: &PyExpr) -> (r: Result<
        Option<ResolvedConstant>,
        Vec<String>,
    >)
        ensures
            match r {
                Ok(Some(found)) => self@.resolution(str_text(enclosing_class), expr@) == Ok::<
                    Option<ResolvedView>,
                    Seq<Seq<char>>,
                >(Some(found@)),
                Ok(None) => self@.resolution(str_text(enclosing_class), expr@) == Ok::<
                    Option<ResolvedView>,
                    Seq<Seq<char>>,
                >(None),
                Err(module) => self@.resolution(str_text(enclosing_class), expr@) == Err::<
                    Option<ResolvedView>,
                    Seq<Seq<char>>,
                >(texts(module@)),
            },
    {
        let path = match expr_to_path(expr) {
            Some(path) => path,
            None => {
                return Ok(None);
            },
        };
        match self.lookup_path_at(
            self.current_path.as_slice(),
            enclosing_class,
            path.as_slice(),
            0,
        ) {
            Ok(Some((value, is_enum_member))) => Ok(
                Some(
                    ResolvedConstant {
                        value: wrap_enum_member(value, is_enum_member, path.as_slice()),
                        source_path: path,
                        is_enum_member,
                    },
                ),
            ),
            Ok(None) => Ok(None),
            Err(module) => Err(module),
        }
    }
}

// ---------------------------------------------------------------------------------------------
// Pending assignments
// ---------------------------------------------------------------------------------------------
/// A constant that a pending assignment has come to: `module` is the place of its module.
pub struct PendingUpdate {
    pub module: usize,
    pub class_path: Vec<String>,
    pub name: String,
    pub value: LiteralValue,
}

/// View of a [`PendingUpdate`].
pub ghost struct UpdateView {
    pub module: nat,
    pub class_path: Seq<Seq<char>>,
    pub name: Seq<char>,
    pub value: ValueView,
}

impl PendingUpdate {
    pub open spec fn view(&self) -> UpdateView {
        UpdateView {
            module: self.module as nat,
            class_path: texts(self.class_path@),
            name: self.name@,
            value: self.value@,
        }
    }
}

pub open spec fn update_views(list: Seq<PendingUpdate>) -> Seq<UpdateView> {
    Seq::new(list.len(), |i: int| list[i].view())
}

/// The updates that were found, or the module that has to be loaded before they can be.
pub type UpdatesView = Result<Seq<UpdateView>, Seq<Seq<char>>>;

pub open spec fn updates_view(r: Result<Vec<PendingUpdate>, Vec<String>>) -> UpdatesView {
    match r {
        Ok(updates) => Ok(update_views(updates@)),
        Err(module) => Err(texts(module@)),
    }
}

/// The known modules after an update.
pub open spec fn with_update(modules: Seq<KnownView>, update: UpdateView) -> Seq<KnownView> {
    if update.module < modules.len() {
        match modules[update.module as int].loaded {
            Some(module) => modules.update(
                update.module as int,
                KnownView {
                    loaded: Some(
                        ModuleView {
                            scope: with_constant_at(
                                module.scope,
                                update.class_path,
                                update.name,
                                update.value,
                            ),
                            ..module
                        },
                    ),
                    ..modules[update.module as int]
                },
            ),
            None => modules,
        }
    } else {
        modules
    }
}

/// The known modules after the updates from `i` on.
pub open spec fn with_updates(
    modules: Seq<KnownView>,
    updates: Seq<UpdateView>,
    i: int,
) -> Seq<KnownView>
    decreases updates.len() - i,
{
    if i < 0 || i >= updates.len() {
        modules
    } else {
        with_updates(with_update(modules, updates[i]), updates, i + 1)
    }
}

impl ResolverView {
    /// The sequence of `done` and the values of the elements from `i` on, each looked up afresh.
    pub open spec fn fresh_sequence_from(
        self,
        path: Seq<Seq<char>>,
        elements: Seq<PendingView>,
        i: int,
        done: Seq<ValueView>,
    ) -> LookupView
        decreases elements.len() - i,
    {
        if i < 0 || i >= elements.len() {
            LookupView::Found(ValueView::Sequence(done), false)
        } else {
            match elements[i] {
                PendingView::Literal(value) => self.fresh_sequence_from(
                    path,
                    elements,
                    i + 1,
                    done.push(value),
                ),
                PendingView::Path(target) => match self.at_path(path, None, target, 0) {
                    LookupView::Found(value, is_enum) => self.fresh_sequence_from(
                        path,
                        elements,
                        i + 1,
                        done.push(as_member(value, is_enum, target)),
                    ),
                    other => other,
                },
            }
        }
    }

    /// `done` and the updates of the scope's pending assignments from `i` on, then those of its
    /// nested classes. A name that is already bound to a constant is left alone.
    pub open spec fn scope_updates(
        self,
        module: nat,
        path: Seq<Seq<char>>,
        class_path: Seq<Seq<char>>,
        scope: ScopeView,
        i: int,
        done: Seq<UpdateView>,
    ) -> UpdatesView
        decreases scope, scope.pending.len() - i,
    {
        if i < 0 || i >= scope.pending.len() {
            self.children_updates(module, path, class_path, scope.children, 0, done)
        } else if entry(scope.constants, scope.pending[i].0) is Some {
            self.scope_updates(module, path, class_path, scope, i + 1, done)
        } else {
            match self.fresh_sequence_from(path, scope.pending[i].1, 0, seq![]) {
                LookupView::Found(value, _) => self.scope_updates(
                    module,
                    path,
                    class_path,
                    scope,
                    i + 1,
                    done.push(UpdateView { module, class_path, name: scope.pending[i].0, value }),
                ),
                LookupView::Missing => self.scope_updates(
                    module,
                    path,
                    class_path,
                    scope,
                    i + 1,
                    done,
                ),
                LookupView::Needs(needed) => Err(needed),
            }
        }
    }

    /// `done` and the updates of the classes from `i` on.
    pub open spec fn children_updates(
        self,
        module: nat,
        path: Seq<Seq<char>>,
        class_path: Seq<Seq<char>>,
        children: Seq<(Seq<char>, ScopeView)>,
        i: int,
        done: Seq<UpdateView>,
    ) -> UpdatesView
        decreases children, children.len() - i,
    {
        if i < 0 || i >= children.len() {
            Ok(done)
        } else {
            match self.scope_updates(
                module,
                path,
                class_path.push(children[i].0),
                children[i].1,
                0,
                done,
            ) {
                Ok(more) => self.children_updates(module, path, class_path, children, i + 1, more),
                Err(needed) => Err(needed),
            }
        }
    }

    /// `done` and the updates of the modules from `i` on that the present round goes through.
    pub open spec fn round_updates(self, i: int, done: Seq<UpdateView>) -> UpdatesView
        decreases self.modules.len() - i,
    {
        if i < 0 || i >= self.modules.len() || i >= self.round_modules {
            Ok(done)
        } else {
            match self.modules[i].loaded {
                None => self.round_updates(i + 1, done),
                Some(module) => match self.scope_updates(
                    i as nat,
                    self.modules[i].path,
                    seq![],
                    module.scope,
                    0,
                    done,
                ) {
                    Ok(more) => self.round_updates(i + 1, more),
                    Err(needed) => Err(needed),
                },
            }
        }
    }

    /// The resolver after the remaining rounds, and the module that the present round waits for.
    /// A round that finds nothing is the last.
    pub open spec fn after_rounds(self) -> (ResolverView, Option<Seq<Seq<char>>>)
        decreases MAX_PENDING_ROUNDS - self.rounds_done,
    {
        if self.rounds_done >= MAX_PENDING_ROUNDS {
            (self, None)
        } else {
            match self.round_updates(0, seq![]) {
                Err(needed) => (self, Some(needed)),
                Ok(updates) => if updates.len() == 0 {
                    (ResolverView { rounds_done: MAX_PENDING_ROUNDS as nat, ..self }, None)
                } else {
                    ResolverView {
                        modules: with_updates(self.modules, updates, 0),
                        rounds_done: self.rounds_done + 1,
                        round_modules: self.modules.len(),
                        ..self
                    }.after_rounds()
                },
            }
        }
    }

    /// The resolver with one more known module, unless it is known already.
    pub open spec fn with_module(self, path: Seq<Seq<char>>, loaded: Option<ModuleView>) -> Self {
        if known_from(self.modules, path, 0) is Some {
            self
        } else {
            ResolverView { modules: self.modules.push(KnownView { path, loaded }), ..self }
        }
    }
}

/// A resolver that knows the current module alone.
pub open spec fn fresh_resolver(
    stmts: Seq<StmtView>,
    path: Seq<Seq<char>>,
    follows_imports: bool,
) -> ResolverView {
    ResolverView {
        current_path: path,
        modules: seq![KnownView { path, loaded: Some(module_of(stmts)) }],
        follows_imports,
        rounds_done: 0,
        round_modules: 1,
    }
}

impl ConstantResolver {
    fn fresh_elements(&self, path: &[String], elements: &[PendingElement]) -> (r: Lookup)
        ensures
            lookup_view(r) == self@.fresh_sequence_from(
                texts(path@),
                element_views(elements@),
                0,
                seq![],
            ),
    {
        let ghost views = element_views(elements@);
        let ghost whole = self@.fresh_sequence_from(texts(path@), views, 0, seq![]);
        let mut values: Vec<LiteralValue> = Vec::new();
        assert(value_views(values@) =~= Seq::<ValueView>::empty());
        let mut i: usize = 0;
        while i < elements.len()
            invariant
                i <= elements@.len(),
                views == element_views(elements@),
                whole == self@.fresh_sequence_from(texts(path@), views, 0, seq![]),
                whole == self@.fresh_sequence_from(
                    texts(path@),
                    views,
                    i as int,
                    value_views(values@),
                ),
            decreases elements@.len() - i,
        {
            let ghost before = values@;
            assert(views[i as int] == elements@[i as int]@);
            match &elements[i] {
                PendingElement::Literal(value) => {
                    values.push(value.copy());
                    assert(value_views(values@) =~= value_views(before).push(value@));
                },
                PendingElement::Path(target) => {
                    match self.lookup_path_at(path, None, target.as_slice(), 0) {
                        Ok(Some((value, is_enum))) => {
                            let wrapped = wrap_enum_member(value, is_enum, target.as_slice());
                            let ghost w = wrapped@;
                            values.push(wrapped);
                            assert(value_views(values@) =~= value_views(before).push(w));
                        },
                        other => {
                            return other;
                        },
                    }
                },
            }
            i = i + 1;
        }
        Ok(Some((LiteralValue::Sequence(values), false)))
    }

    fn collect_pending_in_scope(
        &self,
        module: usize,
        path: &[String],
        class_path: &[String],
        scope: &ConstantScope,
        updates: Vec<PendingUpdate>,
    ) -> (r: Result<Vec<PendingUpdate>, Vec<String>>)
        ensures
            updates_view(r) == self@.scope_updates(
                module as nat,
                texts(path@),
                texts(class_path@),
                scope@,
                0,
                update_views(updates@),
            ),
        decreases scope@,
    {
        let ghost whole = self@.scope_updates(
            module as nat,
            texts(path@),
            texts(class_path@),
            scope@,
            0,
            update_views(updates@),
        );
        let mut found = updates;
        let mut i: usize = 0;
        while i < scope.pending_sequences.len()
            invariant
                i <= scope.pending_sequences@.len(),
                whole == self@.scope_updates(
                    module as nat,
                    texts(path@),
                    texts(class_path@),
                    scope@,
                    0,
                    update_views(updates@),
                ),
                whole == self@.scope_updates(
                    module as nat,
                    texts(path@),
                    texts(class_path@),
                    scope@,
                    i as int,
                    update_views(found@),
                ),
            decreases scope.pending_sequences@.len() - i,
        {
            let name = &scope.pending_sequences[i].0;
            let elements = &scope.pending_sequences[i].1;
            assert(scope@.pending[i as int] == (name@, element_views(elements@)));
            if scope.constant(name.as_str()).is_none() {
                match self.fresh_elements(path, elements.as_slice()) {
                    Ok(Some((value, _))) => {
                        let ghost before = found@;
                        let update = PendingUpdate {
                            module,
                            class_path: copy_all(class_path),
                            name: copy(name.as_str()),
                            value,
                        };
                        let ghost u = update@;
                        found.push(update);
                        assert(update_views(found@) =~= update_views(before).push(u));
                    },
                    Ok(None) => {},
                    Err(needed) => {
                        return Err(needed);
                    },
                }
            }
            i = i + 1;
        }
        let ghost children = scope@.children;
        assert(decreases_to!(scope@ => scope@.children));
        let mut k: usize = 0;
        while k < scope.children.len()
            invariant
                k <= scope.children@.len(),
                children == scope_views(scope.children@),
                decreases_to!(scope@ => children),
                whole == self@.scope_updates(
                    module as nat,
                    texts(path@),
                    texts(class_path@),
                    scope@,
                    0,
                    update_views(updates@),
                ),
                whole == self@.children_updates(
                    module as nat,
                    texts(path@),
                    texts(class_path@),
                    children,
                    k as int,
                    update_views(found@),
                ),
            decreases scope.children@.len() - k,
        {
            let mut child_path = copy_all(class_path);
            let ghost before = child_path@;
            child_path.push(copy(scope.children[k].0.as_str()));
            proof {
                assert(children[k as int] == (
                    scope.children@[k as int].0@,
                    scope.children@[k as int].1@,
                ));
                assert(texts(child_path@) =~= texts(before).push(children[k as int].0));
                assert(decreases_to!(children => children[k as int]));
                assert(decreases_to!(children[k as int] => children[k as int].1));
            }
            match self.collect_pending_in_scope(
                module,
                path,
                child_path.as_slice(),
                &scope.children[k].1,
                found,
            ) {
                Ok(more) => {
                    found = more;
                },
                Err(needed) => {
                    return Err(needed);
                },
            }
            k = k + 1;
        }
        Ok(found)
    }

    fn collect_pending_updates(&self) -> (r: Result<Vec<PendingUpdate>, Vec<String>>)
        ensures
            updates_view(r) == self@.round_updates(0, seq![]),
    {
        let mut found: Vec<PendingUpdate> = Vec::new();
        assert(update_views(found@) =~= Seq::<UpdateView>::empty());
        let root: Vec<String> = Vec::new();
        assert(texts(root@) =~= Seq::<Seq<char>>::empty());
        let mut i: usize = 0;
        while i < self.modules.len() && i < self.round_modules
            invariant
                i <= self.modules@.len(),
                texts(root@) == Seq::<Seq<char>>::empty(),
                self@.round_updates(0, seq![]) == self@.round_updates(
                    i as int,
                    update_views(found@),
                ),
            decreases self.modules@.len() - i,
        {
            assert(self@.modules[i as int] == self.modules@[i as int]@);
            if let Some(module) = &self.modules[i].loaded {
                match self.collect_pending_in_scope(
                    i,
                    self.modules[i].path.as_slice(),
                    root.as_slice(),
                    &module.scope,
                    found,
                ) {
                    Ok(more) => {
                        found = more;
                    },
                    Err(needed) => {
                        return Err(needed);
                    },
                }
            }
            i = i + 1;
        }
        Ok(found)
    }

    fn apply(&mut self, update: &PendingUpdate)
        ensures
            final(self)@ == (ResolverView {
                modules: with_update(old(self)@.modules, update@),
                ..old(self)@
            }),
    {
        let ghost before = *self;
        let at = update.module;
        if at < self.modules.len() {
            assert(before@.modules[at as int] == before.modules@[at as int]@);
            let ghost u = update@;
            if let Some(module) = &mut self.modules[at].loaded {
                insert_constant_at_class_path(
                    &mut module.scope,
                    update.class_path.as_slice(),
                    copy(update.name.as_str()),
                    update.value.copy(),
                );
            }
            assert(self@.modules =~= with_update(before@.modules, u));
        }
    }

    /// Folds the pending assignments of the known modules, in at most [`MAX_PENDING_ROUNDS`]
    /// rounds. Answers with the path of a module that has to be added first; the round is then
    /// gone through again by the next call.
    pub fn resolve_pending_assignments(&mut self) -> (r: Option<Vec<String>>)
        ensures
            ({
                let after = old(self)@.after_rounds();
                &&& final(self)@ == after.0
                &&& match r {
                    Some(module) => after.1 == Some(texts(module@)),
                    None => after.1 is None,
                }
            }),
    {
        let ghost start = self@;
        while self.rounds_done < MAX_PENDING_ROUNDS
            invariant
                start == old(self)@,
                start.after_rounds() == self@.after_rounds(),
            decreases MAX_PENDING_ROUNDS - self.rounds_done,
        {
            let updates = match self.collect_pending_updates() {
                Ok(updates) => updates,
                Err(needed) => {
                    return Some(needed);
                },
            };
            if updates.len() == 0 {
                self.rounds_done = MAX_PENDING_ROUNDS;
                return None;
            }
            let ghost round = self@;
            let ghost views = update_views(updates@);
            let mut i: usize = 0;
            while i < updates.len()
                invariant
                    i <= updates@.len(),
                    views == update_views(updates@),
                    self@.current_path == round.current_path,
                    self@.follows_imports == round.follows_imports,
                    self@.rounds_done == round.rounds_done,
                    self@.round_modules == round.round_modules,
                    self@.modules.len() == round.modules.len(),
                    with_updates(round.modules, views, 0) == with_updates(
                        self@.modules,
                        views,
                        i as int,
                    ),
                decreases updates@.len() - i,
            {
                assert(views[i as int] == updates@[i as int]@);
                self.apply(&updates[i]);
                i = i + 1;
            }
            self.rounds_done = self.rounds_done + 1;
            self.round_modules = self.modules.len();
        }
        None
    }

    /// Adds a module: its source, or nothing where it could not be loaded. A module that is known
    /// already stays as it is.
    pub fn add_module(&mut self, path: Vec<String>, module: Option<&PyModule>)
        ensures
            final(self)@ == old(self)@.with_module(
                texts(path@),
                match module {
                    Some(m) => Some(module_of(m@)),
                    None => None,
                },
            ),
    {
        if self.place_of_module(path.as_slice()).is_some() {
            return;
        }
        let loaded = match module {
            Some(m) => Some(LoadedModule::from_module(m)),
            None => None,
        };
        let ghost before = self@;
        let known = KnownModule { path, loaded };
        let ghost k = known@;
        self.modules.push(known);
        assert(self@.modules =~= before.modules.push(k));
    }

    fn with_current(module: &PyModule, path: Vec<String>, follows_imports: bool) -> (r: Self)
        ensures
            r@ == fresh_resolver(module@, texts(path@), follows_imports),
    {
        let known = KnownModule {
            path: copy_all(path.as_slice()),
            loaded: Some(LoadedModule::from_module(module)),
        };
        let ghost k = known@;
        let mut modules: Vec<KnownModule> = Vec::new();
        modules.push(known);
        assert(known_views(modules@) =~= seq![k]);
        ConstantResolver {
            current_path: path,
            modules,
            follows_imports,
            rounds_done: 0,
            round_modules: 1,
        }
    }

    /// Build a resolver from a parsed module (same-module constants only).
    pub fn from_module(module: &PyModule) -> (r: Self)
        ensures
            r@ == fresh_resolver(module@, seq![], false).after_rounds().0,
    {
        let path: Vec<String> = Vec::new();
        assert(texts(path@) =~= Seq::<Seq<char>>::empty());
        let mut resolver = ConstantResolver::with_current(module, path, false);
        let _ = resolver.resolve_pending_assignments();
        resolver
    }

    /// Build a resolver that follows project-local imports on demand.
    ///
    /// Imported modules are asked for only when a name lookup actually needs them,
    /// so collecting a file that imports a large graph stays cheap. The pending assignments are
    /// left to [`ConstantResolver::resolve_pending_assignments`].
    pub fn from_module_with_imports(module: &PyModule, path: &[String]) -> (r: Self)
        ensures
            r@ == fresh_resolver(module@, texts(path@), true),
    {
        ConstantResolver::with_current(module, copy_all(path), true)
    }

    /// Resolve an expression to a literal value and the path it was written as.
    pub fn resolve(&self, expr: &PyExpr) -> (r: Result<
        Option<(LiteralValue, Vec<String>)>,
        Vec<String>,
    >)
        ensures
            match (r, self@.resolution(None, expr@)) {
                (Ok(Some((value, path))), Ok(Some(found))) => value@ == found.value && texts(path@)
                    == found.source_path,
                (Ok(None), Ok(None)) => true,
                (Err(module), Err(needed)) => texts(module@) == needed,
                _ => false,
            },
    {
        match self.resolve_in_class(None, expr) {
            Ok(Some(found)) => Ok(Some((found.value, found.source_path))),
            Ok(None) => Ok(None),
            Err(module) => Err(module),
        }
    }

    /// The scope of the current module.
    pub fn root(&self) -> (r: Option<&ConstantScope>)
        ensures
            match r {
                Some(scope) => self@.loaded(self@.current_path) is Some && self@.loaded(
                    self@.current_path,
                )->0.scope == scope@,
                None => self@.loaded(self@.current_path) is None,
            },
    {
        match self.loaded(self.current_path.as_slice()) {
            Some(module) => Some(&module.scope),
            None => None,
        }
    }
}

} // verus!
