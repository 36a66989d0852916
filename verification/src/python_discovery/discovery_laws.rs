//! What holds of the tests that discovery finds: what is expanded statically, what is not, and what
//! classes inherit.

use crate::collection::error::ErrorView;
use crate::display_laws::lemma_part_of_sum;
use crate::python_discovery::ancestry_laws::{
    lemma_inherited_from_has, lemma_own_tests_have, lemma_prefixes,
};
use crate::python_discovery::case_laws::lemma_known_parts_stay;
use crate::python_discovery::cases::{
    combined_expansion, value_id, ExpansionView, InfoView, ReasonView, ValueView,
};
use crate::python_discovery::constant_resolver::{
    fresh_resolver, known_from, module_of, BindingView, LookupView, ResolvedView, ResolverView,
};
use crate::python_discovery::constants::{
    base_exprs, class_member, class_scope, empty_scope, enum_definer, is_enum_at, is_enum_class,
    literal_of, member_of_bases, names_enum, path_of, recorded, scope_from, scope_of, value_at,
    ScopeView,
};
use crate::python_discovery::decorators::{
    argnames_of, call_name, calls_param, decorators_expansion, decorators_info, indexed_ids,
    part_texts, resolved_case_ids, resolved_id, specs_from, style_of, text_kwarg, ContextView,
    ObstacleView, ParamIdStyle, PartView,
};
use crate::python_discovery::discovery::{
    has_init, inherited_from, own_tests_from, test_function, test_names, test_of, ConfigView,
    MethodView, TestView,
};
use crate::python_discovery::module_resolver::absolute_import;
use crate::python_discovery::semantic_analyzer::{
    base_of, circular_error, class_infos_from, imports_from, init_warning, is_stdlib_path, BaseView,
    ClassKey, PassView, ProgressView, StopView, TablesView, TargetView,
};
use crate::python_discovery::syntax::{
    ClassView, ExprView, FunctionView, KeywordView, StmtView,
};
use crate::strings::{has_part, joined};
use crate::table::{entry, lemma_entry_after_insert, with_entry};
use vstd::prelude::*;

verus! {

// ---------------------------------------------------------------------------------------------
// Dynamic expressions
// ---------------------------------------------------------------------------------------------
/// A decorator with these argument names and values.
pub open spec fn decorator(
    func: ExprView,
    names: ExprView,
    values: ExprView,
    keywords: Seq<KeywordView>,
) -> ExprView {
    ExprView::Call { func: Box::new(func), args: seq![names, values], keywords }
}

/// A test whose cases come from a function call or a comprehension cannot be expanded, and the
/// reason says so.
pub proof fn lemma_dynamic_values_cannot_be_expanded(
    func: ExprView,
    names: ExprView,
    values: ExprView,
    keywords: Seq<KeywordView>,
    resolver: Option<ResolverView>,
    enclosing_class: Option<Seq<char>>,
)
    requires
        style_of(func) is Some,
        argnames_of(names) is Ok,
        values is Call || values is Comprehension,
    ensures
        decorators_expansion(
            seq![decorator(func, names, values, keywords)],
            resolver,
            enclosing_class,
        ) == Ok::<ExpansionView, Seq<Seq<char>>>(
            ExpansionView::CannotExpand(
                if values is Call {
                    ReasonView::FunctionCall(call_name(*values->Call_func))
                } else {
                    ReasonView::Comprehension
                },
            ),
        ),
{
    let decorators = seq![decorator(func, names, values, keywords)];
    reveal_with_fuel(specs_from, 2);
    assert(decorators[0] == decorator(func, names, values, keywords));
    assert(seq![names, values][0] == names && seq![names, values][1] == values);
}

// ---------------------------------------------------------------------------------------------
// Constants
// ---------------------------------------------------------------------------------------------
/// The statement gives the name a value.
pub open spec fn assigns(stmt: StmtView, name: Seq<char>) -> bool {
    match stmt {
        StmtView::Assign { targets, .. } => targets.len() == 1 && targets[0] == ExprView::Name(
            name,
        ),
        StmtView::AnnAssign { target, initial } => target == ExprView::Name(name)
            && initial is Some,
        _ => false,
    }
}

/// The value that the statement gives a name.
pub open spec fn assigned(stmt: StmtView) -> ExprView {
    match stmt {
        StmtView::Assign { value, .. } => value,
        StmtView::AnnAssign { initial: Some(value), .. } => value,
        _ => ExprView::Other,
    }
}

/// The statement is the last that gives the name a value.
pub open spec fn is_last_assignment(stmts: Seq<StmtView>, i: int, name: Seq<char>) -> bool {
    0 <= i < stmts.len() && assigns(stmts[i], name) && forall|j: int|
        i < j < stmts.len() ==> !assigns(#[trigger] stmts[j], name)
}

/// Statements that do not give a name a value leave it as it was.
pub proof fn lemma_constant_is_kept(stmts: Seq<StmtView>, i: int, name: Seq<char>, done: ScopeView)
    requires
        0 <= i,
        forall|j: int| i <= j < stmts.len() ==> !assigns(#[trigger] stmts[j], name),
    ensures
        entry(scope_from(stmts, i, done).constants, name) == entry(done.constants, name),
    decreases stmts.len() - i,
{
    if i < stmts.len() {
        assert(!assigns(stmts[i], name));
        match stmts[i] {
            StmtView::Assign { targets, value } => {
                if targets.len() == 1 {
                    if let ExprView::Name(id) = targets[0] {
                        lemma_other_is_kept(done, id, value, name);
                        lemma_constant_is_kept(stmts, i + 1, name, recorded(done, id, value));
                    } else {
                        lemma_constant_is_kept(stmts, i + 1, name, done);
                    }
                } else {
                    lemma_constant_is_kept(stmts, i + 1, name, done);
                }
            },
            StmtView::AnnAssign { target, initial } => {
                match (target, initial) {
                    (ExprView::Name(id), Some(value)) => {
                        lemma_other_is_kept(done, id, value, name);
                        lemma_constant_is_kept(stmts, i + 1, name, recorded(done, id, value));
                    },
                    _ => {
                        lemma_constant_is_kept(stmts, i + 1, name, done);
                    },
                }
            },
            StmtView::ClassDef(class) => {
                let next = ScopeView {
                    children: with_entry(
                        done.children,
                        class.name,
                        class_scope(class),
                    ),
                    ..done
                };
                lemma_constant_is_kept(stmts, i + 1, name, next);
            },
            _ => {
                lemma_constant_is_kept(stmts, i + 1, name, done);
            },
        }
    }
}

proof fn lemma_other_is_kept(scope: ScopeView, id: Seq<char>, value: ExprView, name: Seq<char>)
    requires
        id != name,
    ensures
        entry(recorded(scope, id, value).constants, name) == entry(scope.constants, name),
{
    if let Some(literal) = literal_of(value) {
        lemma_entry_after_insert(scope.constants, id, literal, name);
    }
}

proof fn lemma_assigned_is_known(
    stmts: Seq<StmtView>,
    from: int,
    i: int,
    name: Seq<char>,
    done: ScopeView,
)
    requires
        0 <= from <= i,
        is_last_assignment(stmts, i, name),
        literal_of(assigned(stmts[i])) is Some,
    ensures
        entry(scope_from(stmts, from, done).constants, name) == literal_of(assigned(stmts[i])),
    decreases i - from,
{
    if from < i {
        match stmts[from] {
            StmtView::Assign { targets, value } => {
                if targets.len() == 1 {
                    if let ExprView::Name(id) = targets[0] {
                        lemma_assigned_is_known(
                            stmts,
                            from + 1,
                            i,
                            name,
                            recorded(done, id, value),
                        );
                    } else {
                        lemma_assigned_is_known(stmts, from + 1, i, name, done);
                    }
                } else {
                    lemma_assigned_is_known(stmts, from + 1, i, name, done);
                }
            },
            StmtView::AnnAssign { target, initial } => {
                match (target, initial) {
                    (ExprView::Name(id), Some(value)) => {
                        lemma_assigned_is_known(
                            stmts,
                            from + 1,
                            i,
                            name,
                            recorded(done, id, value),
                        );
                    },
                    _ => {
                        lemma_assigned_is_known(stmts, from + 1, i, name, done);
                    },
                }
            },
            StmtView::ClassDef(class) => {
                let after = ScopeView {
                    children: with_entry(
                        done.children,
                        class.name,
                        class_scope(class),
                    ),
                    ..done
                };
                lemma_assigned_is_known(stmts, from + 1, i, name, after);
            },
            _ => {
                lemma_assigned_is_known(stmts, from + 1, i, name, done);
            },
        }
    } else {
        let value = assigned(stmts[i]);
        let after = recorded(done, name, value);
        lemma_entry_after_insert(done.constants, name, literal_of(value)->0, name);
        assert forall|j: int| i + 1 <= j < stmts.len() implies !assigns(
            #[trigger] stmts[j],
            name,
        ) by {
        }
        lemma_constant_is_kept(stmts, i + 1, name, after);
        assert(scope_from(stmts, from, done) == scope_from(stmts, i + 1, after));
    }
}

/// A module knows a name by the literal that was assigned to it last.
pub proof fn lemma_last_assignment_is_known(stmts: Seq<StmtView>, i: int, name: Seq<char>)
    requires
        is_last_assignment(stmts, i, name),
        literal_of(assigned(stmts[i])) is Some,
    ensures
        entry(scope_of(stmts).constants, name) == literal_of(assigned(stmts[i])),
{
    lemma_assigned_is_known(stmts, 0, i, name, empty_scope());
}

/// A name that the current module knows resolves to its value.
pub proof fn lemma_constant_resolves(resolver: ResolverView, name: Seq<char>, value: ValueView)
    requires
        resolver.loaded(resolver.current_path) is Some,
        entry(resolver.loaded(resolver.current_path)->0.scope.constants, name) == Some(value),
    ensures
        resolver.resolution(None, ExprView::Name(name)) == Ok::<
            Option<ResolvedView>,
            Seq<Seq<char>>,
        >(Some(ResolvedView { value, source_path: seq![name], is_enum_member: false })),
{
    let path = seq![name];
    let current = resolver.current_path;
    assert(path_of(ExprView::Name(name)) == Some(path));
    assert(path[0] == name);
    assert(resolver.at_name(current, None, name, 0) == LookupView::Found(value, false));
    assert(resolver.at_path(current, None, path, 0) == LookupView::Found(value, false));
}

/// The current module is loaded from the start.
pub proof fn lemma_fresh_module_is_loaded(
    stmts: Seq<StmtView>,
    path: Seq<Seq<char>>,
    follows_imports: bool,
)
    ensures
        fresh_resolver(stmts, path, follows_imports).loaded(path) == Some(module_of(stmts)),
{
    let resolver = fresh_resolver(stmts, path, follows_imports);
    assert(resolver.modules[0].path == path);
    assert(known_from(resolver.modules, path, 0) == Some(resolver.modules[0]));
}

/// Cases may be given by the name of a list that the module holds as a constant: they are its
/// elements, with IDs by their values for `parametrize` and by the name for `cases`.
pub proof fn lemma_module_constant_gives_cases(
    stmts: Seq<StmtView>,
    path: Seq<Seq<char>>,
    follows_imports: bool,
    i: int,
    name: Seq<char>,
    style: ParamIdStyle,
    argnames: Seq<Seq<char>>,
    values: Seq<ValueView>,
)
    requires
        is_last_assignment(stmts, i, name),
        literal_of(assigned(stmts[i])) == Some(ValueView::Sequence(values)),
    ensures
        ({
            let context = ContextView {
                resolver: Some(fresh_resolver(stmts, path, follows_imports)),
                enclosing_class: None,
                style,
            };
            context.argvalues(ExprView::Name(name), argnames) == Ok::<
                (Seq<ValueView>, Seq<Seq<char>>),
                ObstacleView,
            >(
                (
                    values,
                    match style {
                        ParamIdStyle::SourcePath => indexed_ids(name, values),
                        ParamIdStyle::RuntimeValue => resolved_case_ids(values, argnames),
                    },
                ),
            )
        }),
{
    let resolver = fresh_resolver(stmts, path, follows_imports);
    lemma_last_assignment_is_known(stmts, i, name);
    lemma_fresh_module_is_loaded(stmts, path, follows_imports);
    lemma_constant_resolves(resolver, name, ValueView::Sequence(values));
    reveal_with_fuel(joined, 2);
    assert(joined(seq![name], "."@) =~= name);
}

/// `class.member`.
pub open spec fn attribute(class: Seq<char>, member: Seq<char>) -> ExprView {
    ExprView::Attribute { value: Box::new(ExprView::Name(class)), attr: member }
}

/// A constant of a class that the current module defines resolves to its value, or to the member
/// itself where the class is an enum.
pub proof fn lemma_class_constant_resolves(
    resolver: ResolverView,
    class: Seq<char>,
    member: Seq<char>,
    value: ValueView,
)
    requires
        resolver.loaded(resolver.current_path) is Some,
        ({
            let scope = resolver.loaded(resolver.current_path)->0.scope;
            &&& entry(scope.children, class) is Some
            &&& entry(entry(scope.children, class)->0.constants, member) == Some(value)
        }),
    ensures
        ({
            let scope = resolver.loaded(resolver.current_path)->0.scope;
            let is_enum = is_enum_class(scope, class, scope.children.len());
            resolver.resolution(None, attribute(class, member)) == Ok::<
                Option<ResolvedView>,
                Seq<Seq<char>>,
            >(
                Some(
                    ResolvedView {
                        value: if is_enum {
                            ValueView::EnumMember { class_name: class, member_name: member }
                        } else {
                            value
                        },
                        source_path: seq![class, member],
                        is_enum_member: is_enum,
                    },
                ),
            )
        }),
{
    let e = attribute(class, member);
    let path = seq![class, member];
    reveal_with_fuel(path_of, 2);
    assert(path_of(e)->0 =~= path);
    assert(path.drop_first() =~= seq![member]);
    assert(path[0] == class && path.drop_first()[0] == member);
}

/// A name that the current module imports from a loaded module resolves to that module's constant.
pub proof fn lemma_imported_constant_resolves(
    resolver: ResolverView,
    name: Seq<char>,
    import: BindingView,
    target: Seq<Seq<char>>,
    value: ValueView,
)
    requires
        resolver.loaded(resolver.current_path) is Some,
        ({
            let module = resolver.loaded(resolver.current_path)->0;
            &&& entry(module.scope.constants, name) is None
            &&& entry(module.scope.pending, name) is None
            &&& entry(module.imports, name) == Some(import)
        }),
        import.imported_name.len() > 0,
        absolute_import(resolver.current_path, import.relative_level, import.mod_path) == Some(
            target,
        ),
        resolver.loaded(target) is Some,
        entry(resolver.loaded(target)->0.scope.constants, import.imported_name) == Some(value),
    ensures
        resolver.resolution(None, ExprView::Name(name)) == Ok::<
            Option<ResolvedView>,
            Seq<Seq<char>>,
        >(Some(ResolvedView { value, source_path: seq![name], is_enum_member: false })),
{
    let path = seq![name];
    let current = resolver.current_path;
    let found = LookupView::Found(value, false);
    assert(path_of(ExprView::Name(name)) == Some(path));
    assert(path[0] == name);
    assert(!resolver.wants(target, 1));
    assert(resolver.at_name(target, None, import.imported_name, 1) == found);
    assert(resolver.at_name(current, None, name, 0) == found);
    assert(resolver.at_path(current, None, path, 0) == found);
}

/// A class has the constants of its first base class, where it does not define them itself.
pub proof fn lemma_constant_is_inherited(
    scope: ScopeView,
    class: Seq<char>,
    base: Seq<char>,
    member: Seq<char>,
    value: ValueView,
    fuel: nat,
)
    requires
        entry(scope.children, class) is Some,
        entry(entry(scope.children, class)->0.constants, member) is None,
        entry(scope.children, class)->0.bases.len() > 0,
        entry(scope.children, class)->0.bases[0] == base,
        !names_enum(base),
        entry(scope.children, base) is Some,
        entry(entry(scope.children, base)->0.constants, member) == Some(value),
        fuel > 0,
    ensures
        class_member(scope, class, member, fuel) == Some(value),
{
    let bases = entry(scope.children, class)->0.bases;
    let less = (fuel - 1) as nat;
    assert(class_member(scope, base, member, less) == Some(value));
    assert(member_of_bases(scope, bases, 0, member, less) == Some(value));
}

/// A constant of a nested class resolves to its value; one of a nested enum class to that member of
/// the enum.
pub proof fn lemma_nested_constant_resolves(
    resolver: ResolverView,
    outer: Seq<char>,
    inner: Seq<char>,
    member: Seq<char>,
    value: ValueView,
)
    requires
        resolver.loaded(resolver.current_path) is Some,
        ({
            let scope = resolver.loaded(resolver.current_path)->0.scope;
            &&& entry(scope.children, outer) is Some
            &&& entry(entry(scope.children, outer)->0.children, inner) is Some
            &&& entry(
                entry(entry(scope.children, outer)->0.children, inner)->0.constants,
                member,
            ) == Some(value)
        }),
    ensures
        resolver.resolution(
            None,
            ExprView::Attribute { value: Box::new(attribute(outer, inner)), attr: member },
        ) == Ok::<Option<ResolvedView>, Seq<Seq<char>>>(
            Some(
                {
                    let class = entry(
                        resolver.loaded(resolver.current_path)->0.scope.children,
                        outer,
                    )->0;
                    let is_enum = is_enum_class(class, inner, class.children.len());
                    ResolvedView {
                        value: if is_enum {
                            ValueView::EnumMember { class_name: inner, member_name: member }
                        } else {
                            value
                        },
                        source_path: seq![outer, inner, member],
                        is_enum_member: is_enum,
                    }
                },
            ),
        ),
{
    let e = ExprView::Attribute { value: Box::new(attribute(outer, inner)), attr: member };
    let path = seq![outer, inner, member];
    let rest = seq![inner, member];
    let current = resolver.current_path;
    let scope = resolver.loaded(current)->0.scope;
    let child = entry(scope.children, outer)->0;
    reveal_with_fuel(path_of, 3);
    assert(path_of(e)->0 =~= path);
    assert(path.drop_first() =~= rest);
    assert(seq![outer] + rest =~= path);
    assert(rest[0] == inner && rest[1] == member && path[0] == outer);
    assert(class_member(child, inner, member, child.children.len()) == Some(value));
    assert(value_at(child, rest) == Some(value));
    assert(value_at(scope, path) == Some(value));
    let is_enum = is_enum_class(child, inner, child.children.len());
    assert(enum_definer(child, inner, member, child.children.len()) is Some ==> is_enum);
    assert(is_enum_at(child, rest) == is_enum);
    assert(is_enum_at(scope, path) == is_enum);
    assert(resolver.in_class(current, outer, rest, 0) == LookupView::Found(value, is_enum));
    assert(resolver.at_path(current, None, path, 0) == LookupView::Found(value, is_enum));
}

/// The ID of an enum member is `Class.MEMBER` for `parametrize` and for `cases`.
pub proof fn lemma_enum_member_ids(
    class: Seq<char>,
    member: Seq<char>,
    style: ParamIdStyle,
    resolved: ResolvedView,
)
    requires
        resolved.source_path == seq![class, member],
        resolved.is_enum_member,
    ensures
        resolved_id(resolved, style) == class + seq!['.'] + member,
        value_id(ValueView::EnumMember { class_name: class, member_name: member }) == class
            + seq!['.'] + member,
{
    let path = seq![class, member];
    reveal_with_fuel(joined, 3);
    reveal_strlit(".");
    assert("."@ =~= seq!['.']);
    assert(path.drop_last() =~= seq![class]);
    assert(joined(path, "."@) =~= class + seq!['.'] + member);
}

// ---------------------------------------------------------------------------------------------
// Listed cases
// ---------------------------------------------------------------------------------------------
/// A list of values that can be expanded gives one case, with one ID, for each of its elements.
pub proof fn lemma_one_case_per_element(
    context: ContextView,
    elts: Seq<ExprView>,
    i: int,
    argnames: Seq<Seq<char>>,
    values: Seq<ValueView>,
    ids: Seq<Seq<char>>,
)
    requires
        0 <= i <= elts.len(),
        context.listed_cases(elts, i, argnames, values, ids) is Ok,
    ensures
        ({
            let (all_values, all_ids) = context.listed_cases(
                elts,
                i,
                argnames,
                values,
                ids,
            )->Ok_0;
            &&& all_values.len() == values.len() + elts.len() - i
            &&& all_ids.len() == ids.len() + elts.len() - i
        }),
    decreases elts.len() - i,
{
    if i < elts.len() {
        let case = match context.style {
            ParamIdStyle::RuntimeValue => context.pytest_case(elts[i], argnames, i as nat),
            ParamIdStyle::SourcePath => context.finished_case(
                context.literal_parts(elts[i]),
                argnames,
                i as nat,
            ),
        };
        if let Ok((value, id)) = case {
            lemma_one_case_per_element(
                context,
                elts,
                i + 1,
                argnames,
                values.push(value),
                ids.push(id),
            );
        }
    }
}

/// The explicit ID of a `pytest.param(...)` case is kept as it is written.
pub proof fn lemma_explicit_id_is_kept(
    context: ContextView,
    e: ExprView,
    text: Seq<char>,
    argnames: Seq<Seq<char>>,
    number: nat,
)
    requires
        e is Call,
        calls_param(*e->func),
        text_kwarg(e->keywords, "id"@, 0) == Some(text),
    ensures
        context.literal_case(e) is Ok ==> context.literal_case(e)->Ok_0.1 == text,
        context.pytest_case(e, argnames, number) is Ok ==> context.pytest_case(
            e,
            argnames,
            number,
        )->Ok_0.1 == text,
{
    if let Ok((_, parts)) = context.literal_parts(e) {
        assert(context.literal_parts(e) == context.param_parts(e->args, e->keywords));
        assert(parts =~= seq![PartView { text, is_opaque: false }]);
        lemma_known_parts_stay(parts, argnames, number);
        assert(part_texts(parts) =~= seq![text]);
        assert(joined(part_texts(parts), "-"@) == text);
    }
}

// ---------------------------------------------------------------------------------------------
// Classes
// ---------------------------------------------------------------------------------------------
/// A class inherits no test that it defines itself; what it inherits is named like a method of the
/// base class and belongs to the inheriting class.
pub proof fn lemma_own_tests_override(
    methods: Seq<MethodView>,
    i: int,
    own: Seq<Seq<char>>,
    class_specs: InfoView,
    class: Seq<char>,
    done: Seq<TestView>,
    k: int,
)
    requires
        0 <= i,
        done.len() <= k < inherited_from(methods, i, own, class_specs, class, done).len(),
    ensures
        ({
            let test = inherited_from(methods, i, own, class_specs, class, done)[k];
            &&& !own.contains(test.name)
            &&& test.class_name == Some(class)
            &&& exists|m: int|
                i <= m < methods.len() && test == #[trigger] test_of(
                    methods[m].name,
                    methods[m].line,
                    Some(class),
                    combined_expansion(class_specs, methods[m].method_specs),
                )
        }),
    decreases methods.len() - i,
{
    if i < methods.len() {
        if own.contains(methods[i].name) {
            lemma_own_tests_override(methods, i + 1, own, class_specs, class, done, k);
        } else {
            let test = test_of(
                methods[i].name,
                methods[i].line,
                Some(class),
                combined_expansion(class_specs, methods[i].method_specs),
            );
            let next = done.push(test);
            if k > done.len() {
                lemma_own_tests_override(methods, i + 1, own, class_specs, class, next, k);
            } else {
                lemma_done_is_kept(methods, i + 1, own, class_specs, class, next, k);
            }
        }
    }
}

/// Inheriting adds tests behind those that are there.
pub proof fn lemma_done_is_kept(
    methods: Seq<MethodView>,
    i: int,
    own: Seq<Seq<char>>,
    class_specs: InfoView,
    class: Seq<char>,
    done: Seq<TestView>,
    k: int,
)
    requires
        0 <= i,
        0 <= k < done.len(),
    ensures
        inherited_from(methods, i, own, class_specs, class, done).len() >= done.len(),
        inherited_from(methods, i, own, class_specs, class, done)[k] == done[k],
    decreases methods.len() - i,
{
    if i < methods.len() {
        if own.contains(methods[i].name) {
            lemma_done_is_kept(methods, i + 1, own, class_specs, class, done, k);
        } else {
            let next = done.push(
                test_of(
                    methods[i].name,
                    methods[i].line,
                    Some(class),
                    combined_expansion(class_specs, methods[i].method_specs),
                ),
            );
            lemma_done_is_kept(methods, i + 1, own, class_specs, class, next, k);
        }
    }
}

/// A test class with a constructor of its own is not collected; there is a warning instead.
pub proof fn lemma_class_with_init_is_skipped(
    pass: PassView,
    target: TargetView,
    progress: ProgressView,
    class: ClassView,
)
    requires
        pass.config.is_test_class(class.name),
        has_init(class),
    ensures
        pass.after_class(target, progress, class) == Ok::<
            ProgressView,
            StopView,
        >(
            ProgressView {
                warnings: progress.warnings.push(init_warning(target.file, class)),
                ..progress
            },
        ),
{
}

/// A class that is not named like a test class adds nothing.
pub proof fn lemma_other_class_is_passed_over(
    pass: PassView,
    target: TargetView,
    progress: ProgressView,
    class: ClassView,
)
    requires
        !pass.config.is_test_class(class.name),
    ensures
        pass.after_class(target, progress, class) == Ok::<
            ProgressView,
            StopView,
        >(progress),
{
}

/// The names of tests.
pub open spec fn names_of(tests: Seq<TestView>) -> Seq<Seq<char>> {
    Seq::new(tests.len(), |i: int| tests[i].name)
}

proof fn lemma_test_names_from_front(config: ConfigView, body: Seq<StmtView>)
    requires
        body.len() > 0,
    ensures
        test_names(config, body) == (match test_function(config, body[0]) {
            Some(func) => seq![func.name],
            None => seq![],
        }) + test_names(config, body.drop_first()),
    decreases body.len(),
{
    let head = match test_function(config, body[0]) {
        Some(func) => seq![func.name],
        None => seq![],
    };
    if body.len() == 1 {
        assert(body.drop_last() =~= Seq::<StmtView>::empty());
        assert(body.drop_first() =~= Seq::<StmtView>::empty());
        assert(test_names(config, body.drop_last()) =~= Seq::<Seq<char>>::empty());
        assert(test_names(config, body) =~= head + test_names(config, body.drop_first()));
    } else {
        lemma_test_names_from_front(config, body.drop_last());
        assert(body.drop_last().drop_first() =~= body.drop_first().drop_last());
        assert(body.drop_first().last() == body.last());
        assert(test_names(config, body) =~= head + test_names(config, body.drop_first()));
    }
}

proof fn lemma_names_pushed(done: Seq<TestView>, test: TestView, rest: Seq<Seq<char>>)
    ensures
        names_of(done.push(test)) + rest == names_of(done) + (seq![test.name] + rest),
{
    assert(names_of(done.push(test)) + rest =~= names_of(done) + (seq![test.name] + rest));
}

/// A class's own tests are its test methods, each once and in order.
pub proof fn lemma_own_tests_in_order(
    config: ConfigView,
    resolver: Option<ResolverView>,
    class: Seq<char>,
    class_specs: InfoView,
    body: Seq<StmtView>,
    i: int,
    done: Seq<TestView>,
)
    requires
        0 <= i <= body.len(),
        own_tests_from(config, resolver, class, class_specs, body, i, done) is Ok,
    ensures
        names_of(
            own_tests_from(config, resolver, class, class_specs, body, i, done)->Ok_0,
        ) == names_of(done) + test_names(config, body.skip(i)),
    decreases body.len() - i,
{
    if i < body.len() {
        lemma_test_names_from_front(config, body.skip(i));
        assert(body.skip(i).drop_first() =~= body.skip(i + 1));
        match test_function(config, body[i]) {
            None => {
                lemma_own_tests_in_order(config, resolver, class, class_specs, body, i + 1, done);
                assert(Seq::<Seq<char>>::empty() + test_names(config, body.skip(i + 1))
                    =~= test_names(config, body.skip(i + 1)));
            },
            Some(func) => {
                if let Ok(method_specs) = decorators_info(
                    func.decorators,
                    resolver,
                    Some(class),
                ) {
                    let next = done.push(
                        test_of(
                            func.name,
                            func.offset as nat,
                            Some(class),
                            combined_expansion(class_specs, method_specs),
                        ),
                    );
                    lemma_own_tests_in_order(
                        config,
                        resolver,
                        class,
                        class_specs,
                        body,
                        i + 1,
                        next,
                    );
                    lemma_names_pushed(done, next.last(), test_names(config, body.skip(i + 1)));
                }
            },
        }
    } else {
        assert(body.skip(i) =~= Seq::<StmtView>::empty());
        assert(test_names(config, body.skip(i)) =~= Seq::<Seq<char>>::empty());
        assert(names_of(done) + Seq::<Seq<char>>::empty() =~= names_of(done));
    }
}

/// The tests at module level are the test functions, each once and in order.
pub proof fn lemma_functions_in_order(
    pass: PassView,
    target: TargetView,
    stmts: Seq<StmtView>,
    i: int,
    done: Seq<TestView>,
)
    requires
        0 <= i <= stmts.len(),
        pass.functions_from(target, stmts, i, done) is Ok,
    ensures
        names_of(pass.functions_from(target, stmts, i, done)->Ok_0) == names_of(done) + test_names(
            pass.config,
            stmts.skip(i),
        ),
    decreases stmts.len() - i,
{
    let config = pass.config;
    if i < stmts.len() {
        lemma_test_names_from_front(config, stmts.skip(i));
        assert(stmts.skip(i).drop_first() =~= stmts.skip(i + 1));
        match test_function(config, stmts[i]) {
            None => {
                lemma_functions_in_order(pass, target, stmts, i + 1, done);
                assert(Seq::<Seq<char>>::empty() + test_names(config, stmts.skip(i + 1))
                    =~= test_names(config, stmts.skip(i + 1)));
            },
            Some(func) => {
                if let Ok(cases) = decorators_expansion(
                    func.decorators,
                    Some(target.resolver),
                    None,
                ) {
                    let next = done.push(test_of(func.name, func.offset as nat, None, cases));
                    lemma_functions_in_order(pass, target, stmts, i + 1, next);
                    lemma_names_pushed(done, next.last(), test_names(config, stmts.skip(i + 1)));
                }
            },
        }
    } else {
        assert(stmts.skip(i) =~= Seq::<StmtView>::empty());
        assert(test_names(config, stmts.skip(i)) =~= Seq::<Seq<char>>::empty());
        assert(names_of(done) + Seq::<Seq<char>>::empty() =~= names_of(done));
    }
}

// ---------------------------------------------------------------------------------------------
// Cases of tests
// ---------------------------------------------------------------------------------------------
/// The test is the function of that class or module, with these cases.
pub open spec fn is_test_with(
    test: TestView,
    func: FunctionView,
    class: Option<Seq<char>>,
    cases: ExpansionView,
) -> bool {
    &&& test.name == func.name
    &&& test.line == func.offset
    &&& test.class_name == class
    &&& test.is_method == class is Some
    &&& test.cases_expansion == cases
    &&& test.is_parametrized <==> !(cases is NotDecorated)
    &&& test.has_uncertain_params <==> cases is CannotExpand
}

/// A test function of a module is found with the cases that its decorators give.
pub proof fn lemma_function_has_its_cases(
    pass: PassView,
    target: TargetView,
    stmts: Seq<StmtView>,
    i: int,
    done: Seq<TestView>,
    j: int,
)
    requires
        0 <= i,
        pass.functions_from(target, stmts, i, done) is Ok,
    ensures
        ({
            let all = pass.functions_from(target, stmts, i, done)->Ok_0;
            &&& done.is_prefix_of(all)
            &&& i <= j < stmts.len() && stmts[j] is FunctionDef && pass.config.is_test_function(
                stmts[j]->FunctionDef_0.name,
            ) ==> {
                let func = stmts[j]->FunctionDef_0;
                let cases = decorators_expansion(func.decorators, Some(target.resolver), None);
                cases is Ok && exists|x: int|
                    0 <= x < all.len() && is_test_with(#[trigger] all[x], func, None, cases->Ok_0)
            }
        }),
    decreases stmts.len() - i,
{
    let all = pass.functions_from(target, stmts, i, done)->Ok_0;
    assert(done =~= done.take(done.len() as int));
    if i < stmts.len() {
        match stmts[i] {
            StmtView::FunctionDef(func) if pass.config.is_test_function(func.name) => {
                let cases = decorators_expansion(
                    func.decorators,
                    Some(target.resolver),
                    None,
                )->Ok_0;
                let test = test_of(func.name, func.offset as nat, None, cases);
                let next = done.push(test);
                lemma_function_has_its_cases(pass, target, stmts, i + 1, next, j);
                assert(next =~= all.take(next.len() as int));
                assert forall|x: int| 0 <= x < next.len() implies #[trigger] next[x] == all[x] by {
                    assert(all.take(next.len() as int)[x] == all[x]);
                }
                assert(done =~= all.take(done.len() as int));
                assert(all[done.len() as int] == next[done.len() as int]);
                assert(is_test_with(all[done.len() as int], func, None, cases));
            },
            _ => {
                lemma_function_has_its_cases(pass, target, stmts, i + 1, done, j);
            },
        }
    }
}

/// A test method of a class is found with the cases that the decorators of the class and its own
/// give together.
pub proof fn lemma_method_has_its_cases(
    config: ConfigView,
    resolver: Option<ResolverView>,
    class: Seq<char>,
    class_specs: InfoView,
    body: Seq<StmtView>,
    i: int,
    done: Seq<TestView>,
    j: int,
)
    requires
        0 <= i,
        own_tests_from(config, resolver, class, class_specs, body, i, done) is Ok,
    ensures
        ({
            let all = own_tests_from(config, resolver, class, class_specs, body, i, done)->Ok_0;
            &&& done.is_prefix_of(all)
            &&& i <= j < body.len() && body[j] is FunctionDef && config.is_test_function(
                body[j]->FunctionDef_0.name,
            ) ==> {
                let func = body[j]->FunctionDef_0;
                let own = decorators_info(func.decorators, resolver, Some(class));
                own is Ok && exists|x: int|
                    0 <= x < all.len() && is_test_with(
                        #[trigger] all[x],
                        func,
                        Some(class),
                        combined_expansion(class_specs, own->Ok_0),
                    )
            }
        }),
    decreases body.len() - i,
{
    let all = own_tests_from(config, resolver, class, class_specs, body, i, done)->Ok_0;
    assert(done =~= done.take(done.len() as int));
    if i < body.len() {
        match body[i] {
            StmtView::FunctionDef(func) if config.is_test_function(func.name) => {
                let own = decorators_info(func.decorators, resolver, Some(class))->Ok_0;
                let cases = combined_expansion(class_specs, own);
                let test = test_of(func.name, func.offset as nat, Some(class), cases);
                let next = done.push(test);
                lemma_method_has_its_cases(
                    config,
                    resolver,
                    class,
                    class_specs,
                    body,
                    i + 1,
                    next,
                    j,
                );
                assert(next =~= all.take(next.len() as int));
                assert forall|x: int| 0 <= x < next.len() implies #[trigger] next[x] == all[x] by {
                    assert(all.take(next.len() as int)[x] == all[x]);
                }
                assert(done =~= all.take(done.len() as int));
                assert(all[done.len() as int] == next[done.len() as int]);
                assert(is_test_with(all[done.len() as int], func, Some(class), cases));
            },
            _ => {
                lemma_method_has_its_cases(
                    config,
                    resolver,
                    class,
                    class_specs,
                    body,
                    i + 1,
                    done,
                    j,
                );
            },
        }
    }
}

// ---------------------------------------------------------------------------------------------
// Order
// ---------------------------------------------------------------------------------------------
/// The own tests of a class come last, in the order of its body, behind those that it inherits.
pub proof fn lemma_own_tests_come_last(
    pass: PassView,
    target: TargetView,
    progress: ProgressView,
    class: ClassView,
)
    requires
        pass.config.is_test_class(class.name),
        pass.after_class(target, progress, class) is Ok,
        pass.after_class(target, progress, class)->Ok_0.warnings == progress.warnings,
    ensures
        test_names(pass.config, class.body).is_suffix_of(
            names_of(pass.after_class(target, progress, class)->Ok_0.tests),
        ),
{
    let next = pass.after_class(target, progress, class)->Ok_0;
    let (tables, skipped) = pass.skips(target, progress.tables, class)->Ok_0;
    if skipped {
        assert(next.warnings.len() == progress.warnings.len() + 1);
    }
    let specs = decorators_info(class.decorators, Some(target.resolver), Some(class.name))->Ok_0;
    let own = test_names(pass.config, class.body);
    let (_, first) = pass.inherited(
        target,
        tables,
        base_exprs(class),
        0,
        own,
        specs,
        class.name,
        progress.tests,
    )->Ok_0;
    lemma_own_tests_in_order(
        pass.config,
        Some(target.resolver),
        class.name,
        specs,
        class.body,
        0,
        first,
    );
    assert(class.body.skip(0) =~= class.body);
    let all = names_of(next.tests);
    assert(all == names_of(first) + own);
    assert(own =~= all.subrange(all.len() - own.len(), all.len() as int));
}

/// The methods of a base class come last among those that it gives, behind those that it inherits
/// itself. A base class that is being looked into already is an error that names it.
pub proof fn lemma_methods_of_a_base(
    pass: PassView,
    tables: TablesView,
    base: BaseView,
    visited: Seq<ClassKey>,
    fuel: nat,
)
    ensures
        pass.base_methods(tables, base, visited, fuel) matches Ok((_, Some(methods)))
            ==> (pass.entered(tables, base) matches Ok(now) && now.class(
            base.mod_path,
            base.class_name,
        ) is Some && now.class(base.mod_path, base.class_name)->0.test_methods.is_suffix_of(
            methods,
        )),
        !is_stdlib_path(base.mod_path) && visited.contains((base.mod_path, base.class_name))
            ==> pass.base_methods(tables, base, visited, fuel) == Err::<
            (TablesView, Option<Seq<MethodView>>),
            StopView,
        >(circular_error(base.class_name)),
        circular_error(base.class_name) matches StopView::Error(ErrorView::ParseError(text))
            && has_part(text, base.class_name),
{
    lemma_part_of_sum(
        "Circular inheritance detected in class hierarchy involving '"@,
        base.class_name,
        "'"@,
    );
    if let Ok((_, Some(methods))) = pass.base_methods(tables, base, visited, fuel) {
        let now = pass.entered(tables, base)->Ok_0;
        let own = now.class(base.mod_path, base.class_name)->0.test_methods;
        assert(own =~= methods.subrange(methods.len() - own.len(), methods.len() as int));
    }
}

/// The test functions of a module come first, then the tests of its classes.
pub proof fn lemma_functions_come_first(
    pass: PassView,
    file: Seq<char>,
    path: Seq<Seq<char>>,
    stmts: Seq<StmtView>,
    resolver: ResolverView,
)
    requires
        pass.result(file, path, stmts, resolver) is Ok,
    ensures
        test_names(pass.config, stmts).is_prefix_of(
            names_of(pass.result(file, path, stmts, resolver)->Ok_0.0),
        ),
{
    let target = TargetView {
        file,
        path,
        imports: imports_from(stmts, 0, seq![]),
        resolver,
    };
    let first = pass.functions_from(target, stmts, 0, seq![])->Ok_0;
    let own = class_infos_from(
        pass.config,
        Some(resolver),
        true,
        stmts,
        0,
        path,
        imports_from(stmts, 0, seq![]),
        seq![],
    )->Ok_0;
    let progress = ProgressView {
        tables: TablesView { own_path: path, own, loaded: seq![] },
        tests: first,
        warnings: seq![],
    };
    lemma_functions_in_order(pass, target, stmts, 0, seq![]);
    assert(stmts.skip(0) =~= stmts);
    assert(names_of(Seq::<TestView>::empty()) + test_names(pass.config, stmts) =~= test_names(
        pass.config,
        stmts,
    ));
    lemma_classes_add_behind(pass, target, stmts, 0, progress);
    let all = pass.result(file, path, stmts, resolver)->Ok_0.0;
    let n = first.len() as int;
    assert(first =~= all.take(n));
    assert(names_of(first) =~= names_of(all).take(n)) by {
        assert forall|i: int| 0 <= i < n implies names_of(first)[i] == names_of(all).take(n)[i] by {
            assert(all.take(n)[i] == all[i]);
        }
    }
}

proof fn lemma_inherited_adds_behind(
    pass: PassView,
    target: TargetView,
    tables: TablesView,
    bases: Seq<ExprView>,
    i: int,
    own: Seq<Seq<char>>,
    specs: InfoView,
    class: Seq<char>,
    done: Seq<TestView>,
)
    requires
        0 <= i,
    ensures
        pass.inherited(target, tables, bases, i, own, specs, class, done) matches Ok((_, tests))
            ==> done.is_prefix_of(tests),
    decreases bases.len() - i,
{
    assert(done =~= done.take(done.len() as int));
    if i < bases.len() {
        match base_of(bases[i], target.path, target.imports) {
            Ok(None) => {
                lemma_inherited_adds_behind(
                    pass,
                    target,
                    tables,
                    bases,
                    i + 1,
                    own,
                    specs,
                    class,
                    done,
                );
            },
            Ok(Some(base)) => {
                if let Ok((now, found)) = pass.base_methods(
                    tables,
                    base,
                    seq![],
                    pass.levels(tables),
                ) {
                    let next = match found {
                        Some(methods) => inherited_from(methods, 0, own, specs, class, done),
                        None => done,
                    };
                    if let Some(methods) = found {
                        lemma_inherited_from_has(methods, 0, own, specs, class, done, class);
                    }
                    lemma_inherited_adds_behind(
                        pass,
                        target,
                        now,
                        bases,
                        i + 1,
                        own,
                        specs,
                        class,
                        next,
                    );
                    if let Ok((_, tests)) = pass.inherited(
                        target,
                        tables,
                        bases,
                        i,
                        own,
                        specs,
                        class,
                        done,
                    ) {
                        lemma_prefixes(done, next, tests);
                    }
                }
            },
            Err(_) => {},
        }
    }
}

proof fn lemma_classes_add_behind(
    pass: PassView,
    target: TargetView,
    stmts: Seq<StmtView>,
    i: int,
    progress: ProgressView,
)
    requires
        0 <= i,
    ensures
        pass.classes_from(target, stmts, i, progress) matches Ok(end)
            ==> progress.tests.is_prefix_of(end.tests),
    decreases stmts.len() - i,
{
    assert(progress.tests =~= progress.tests.take(progress.tests.len() as int));
    if i < stmts.len() {
        match stmts[i] {
            StmtView::ClassDef(class) => {
                if let Ok(next) = pass.after_class(target, progress, class) {
                    assert(progress.tests.is_prefix_of(next.tests)) by {
                        lemma_class_adds_behind(pass, target, progress, class);
                    }
                    lemma_classes_add_behind(pass, target, stmts, i + 1, next);
                    if let Ok(end) = pass.classes_from(target, stmts, i, progress) {
                        lemma_prefixes(progress.tests, next.tests, end.tests);
                    }
                }
            },
            _ => {
                lemma_classes_add_behind(pass, target, stmts, i + 1, progress);
            },
        }
    }
}

proof fn lemma_class_adds_behind(
    pass: PassView,
    target: TargetView,
    progress: ProgressView,
    class: ClassView,
)
    requires
        pass.after_class(target, progress, class) is Ok,
    ensures
        progress.tests.is_prefix_of(pass.after_class(target, progress, class)->Ok_0.tests),
{
    let next = pass.after_class(target, progress, class)->Ok_0;
    assert(progress.tests =~= progress.tests.take(progress.tests.len() as int));
    if pass.config.is_test_class(class.name) {
        let (tables, skipped) = pass.skips(target, progress.tables, class)->Ok_0;
        if !skipped {
            let specs = decorators_info(
                class.decorators,
                Some(target.resolver),
                Some(class.name),
            )->Ok_0;
            let own = test_names(pass.config, class.body);
            let bases = base_exprs(class);
            lemma_inherited_adds_behind(
                pass,
                target,
                tables,
                bases,
                0,
                own,
                specs,
                class.name,
                progress.tests,
            );
            let (_, first) = pass.inherited(
                target,
                tables,
                bases,
                0,
                own,
                specs,
                class.name,
                progress.tests,
            )->Ok_0;
            lemma_own_tests_have(
                pass.config,
                Some(target.resolver),
                class.name,
                specs,
                class.body,
                0,
                first,
                class.name,
            );
            lemma_prefixes(progress.tests, first, next.tests);
        }
    }
}

} // verus!
