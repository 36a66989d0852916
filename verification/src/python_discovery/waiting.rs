//! What a resolver waits for: only modules that it does not know yet, and none where it does not
//! follow imports.

use crate::python_discovery::cases::{value_id, SpecView, ValueView};
use crate::python_discovery::constant_resolver::{
    class_bound, deeper, is_skipped, known_from, with_update, with_updates, BindingView, KnownView,
    LookupView, ResolverView, UpdateView, MAX_IMPORT_DEPTH, MAX_PENDING_ROUNDS,
};
use crate::python_discovery::constants::{as_member, path_of, PendingView, ScopeView};
use crate::python_discovery::decorators::{
    argnames_of, decorator_spec, decorators_expansion, decorators_info, elements_of, part_texts,
    positional, specs_from, style_of, ContextView, ObstacleView, PartView,
};
use crate::python_discovery::module_resolver::absolute_import;
use crate::python_discovery::syntax::{ExprView, KeywordView};
use crate::strings::joined;
use crate::table::entry;
use vstd::prelude::*;

verus! {

/// The resolver would have the module loaded: it follows imports and does not know the module.
pub open spec fn asks_for(r: ResolverView, path: Seq<Seq<char>>) -> bool {
    r.follows_imports && known_from(r.modules, path, 0) is None && !is_skipped(path)
}

/// Where a lookup waits for a module, the resolver asks for it.
pub open spec fn is_settled(r: ResolverView, lookup: LookupView) -> bool {
    lookup matches LookupView::Needs(path) ==> asks_for(r, path)
}

/// Where a lookup waits for a module, the resolver asks for it.
pub open spec fn is_settled_result<T>(r: ResolverView, result: Result<T, Seq<Seq<char>>>) -> bool {
    result matches Err(path) ==> asks_for(r, path)
}

proof fn lemma_member(
    r: ResolverView,
    path: Seq<Seq<char>>,
    class: Seq<char>,
    member: Seq<char>,
    depth: nat,
    fuel: nat,
)
    ensures
        is_settled(r, r.member(path, class, member, depth, fuel)),
    decreases fuel, 0int, 0int,
{
    if let Some(module) = r.loaded(path) {
        if let Some(found) = entry(module.scope.children, class) {
            if fuel > 0 {
                lemma_member_of_imported(
                    r,
                    path,
                    module.imports,
                    found.bases,
                    0,
                    member,
                    depth,
                    (fuel - 1) as nat,
                );
            }
        }
    }
}

proof fn lemma_member_of_imported(
    r: ResolverView,
    path: Seq<Seq<char>>,
    imports: Seq<(Seq<char>, BindingView)>,
    bases: Seq<Seq<char>>,
    i: int,
    member: Seq<char>,
    depth: nat,
    fuel: nat,
)
    ensures
        is_settled(r, r.member_of_imported(path, imports, bases, i, member, depth, fuel)),
    decreases fuel, 1int, bases.len() - i,
{
    if 0 <= i < bases.len() {
        lemma_member_of_imported(r, path, imports, bases, i + 1, member, depth, fuel);
        if let Some(import) = entry(imports, bases[i]) {
            if let Some(target) = absolute_import(path, import.relative_level, import.mod_path) {
                lemma_member(r, target, import.imported_name, member, deeper(depth), fuel);
            }
        }
    }
}

proof fn lemma_at_name(
    r: ResolverView,
    path: Seq<Seq<char>>,
    class: Option<Seq<char>>,
    name: Seq<char>,
    depth: nat,
)
    ensures
        is_settled(r, r.at_name(path, class, name, depth)),
    decreases MAX_IMPORT_DEPTH + 1 - depth, 1int, 0int,
{
    if depth <= MAX_IMPORT_DEPTH {
        if let Some(c) = class {
            lemma_member(r, path, c, name, depth, class_bound(r.modules));
        }
        if let Some(module) = r.loaded(path) {
            if let Some(elements) = entry(module.scope.pending, name) {
                lemma_sequence_from(r, path, elements, 0, seq![], depth);
            }
            if let Some(import) = entry(module.imports, name) {
                if let Some(target) = absolute_import(
                    path,
                    import.relative_level,
                    import.mod_path,
                ) {
                    lemma_at_name(r, target, None, import.imported_name, depth + 1);
                }
            }
        }
    }
}

proof fn lemma_sequence_from(
    r: ResolverView,
    path: Seq<Seq<char>>,
    elements: Seq<PendingView>,
    i: int,
    done: Seq<ValueView>,
    depth: nat,
)
    ensures
        is_settled(r, r.sequence_from(path, elements, i, done, depth)),
    decreases MAX_IMPORT_DEPTH + 1 - depth, 0int, elements.len() - i,
{
    if depth <= MAX_IMPORT_DEPTH && 0 <= i < elements.len() {
        match elements[i] {
            PendingView::Literal(value) => {
                lemma_sequence_from(r, path, elements, i + 1, done.push(value), depth);
            },
            PendingView::Path(target) => {
                lemma_at_path(r, path, None, target, depth + 1);
                if let LookupView::Found(value, is_enum) = r.at_path(
                    path,
                    None,
                    target,
                    depth + 1,
                ) {
                    lemma_sequence_from(
                        r,
                        path,
                        elements,
                        i + 1,
                        done.push(as_member(value, is_enum, target)),
                        depth,
                    );
                }
            },
        }
    }
}

proof fn lemma_at_path(
    r: ResolverView,
    path: Seq<Seq<char>>,
    class: Option<Seq<char>>,
    target: Seq<Seq<char>>,
    depth: nat,
)
    ensures
        is_settled(r, r.at_path(path, class, target, depth)),
    decreases MAX_IMPORT_DEPTH + 1 - depth, 2int, 0int,
{
    if depth <= MAX_IMPORT_DEPTH && target.len() == 1 {
        lemma_at_name(r, path, class, target[0], depth);
    } else if depth <= MAX_IMPORT_DEPTH && target.len() > 1 {
        let rest = target.drop_first();
        lemma_member(r, path, target[0], rest[0], depth, class_bound(r.modules));
        if let Some(module) = r.loaded(path) {
            if let Some(import) = entry(module.imports, target[0]) {
                if let Some(abs) = absolute_import(path, import.relative_level, import.mod_path) {
                    lemma_at_path(r, abs, None, rest, depth + 1);
                    lemma_at_path(r, abs, None, seq![import.imported_name] + rest, depth + 1);
                }
            }
        }
    }
}

/// A lookup waits for modules alone that the resolver asks for.
pub proof fn lemma_resolution_is_settled(
    r: ResolverView,
    enclosing_class: Option<Seq<char>>,
    e: ExprView,
)
    ensures
        is_settled_result(r, r.resolution(enclosing_class, e)),
{
    if let Some(path) = path_of(e) {
        lemma_at_path(r, r.current_path, enclosing_class, path, 0);
    }
}

/// A resolver that does not follow imports answers every lookup.
pub proof fn lemma_resolution_is_final(
    r: ResolverView,
    enclosing_class: Option<Seq<char>>,
    e: ExprView,
)
    requires
        !r.follows_imports,
    ensures
        r.resolution(enclosing_class, e) is Ok,
{
    lemma_resolution_is_settled(r, enclosing_class, e);
}

proof fn lemma_fresh_sequence(
    r: ResolverView,
    path: Seq<Seq<char>>,
    elements: Seq<PendingView>,
    i: int,
    done: Seq<ValueView>,
)
    ensures
        is_settled(r, r.fresh_sequence_from(path, elements, i, done)),
    decreases elements.len() - i,
{
    if 0 <= i < elements.len() {
        match elements[i] {
            PendingView::Literal(value) => {
                lemma_fresh_sequence(r, path, elements, i + 1, done.push(value));
            },
            PendingView::Path(target) => {
                lemma_at_path(r, path, None, target, 0);
                if let LookupView::Found(value, is_enum) = r.at_path(path, None, target, 0) {
                    lemma_fresh_sequence(
                        r,
                        path,
                        elements,
                        i + 1,
                        done.push(as_member(value, is_enum, target)),
                    );
                }
            },
        }
    }
}

proof fn lemma_scope_updates(
    r: ResolverView,
    module: nat,
    path: Seq<Seq<char>>,
    class_path: Seq<Seq<char>>,
    scope: ScopeView,
    i: int,
    done: Seq<UpdateView>,
)
    ensures
        is_settled_result(r, r.scope_updates(module, path, class_path, scope, i, done)),
    decreases scope, scope.pending.len() - i,
{
    if i < 0 || i >= scope.pending.len() {
        lemma_children_updates(r, module, path, class_path, scope.children, 0, done);
    } else {
        let (name, elements) = scope.pending[i];
        lemma_fresh_sequence(r, path, elements, 0, seq![]);
        lemma_scope_updates(r, module, path, class_path, scope, i + 1, done);
        if let LookupView::Found(value, _) = r.fresh_sequence_from(path, elements, 0, seq![]) {
            lemma_scope_updates(
                r,
                module,
                path,
                class_path,
                scope,
                i + 1,
                done.push(UpdateView { module, class_path, name, value }),
            );
        }
    }
}

proof fn lemma_children_updates(
    r: ResolverView,
    module: nat,
    path: Seq<Seq<char>>,
    class_path: Seq<Seq<char>>,
    children: Seq<(Seq<char>, ScopeView)>,
    i: int,
    done: Seq<UpdateView>,
)
    ensures
        is_settled_result(r, r.children_updates(module, path, class_path, children, i, done)),
    decreases children, children.len() - i,
{
    if 0 <= i < children.len() {
        let inner = class_path.push(children[i].0);
        lemma_scope_updates(r, module, path, inner, children[i].1, 0, done);
        if let Ok(more) = r.scope_updates(module, path, inner, children[i].1, 0, done) {
            lemma_children_updates(r, module, path, class_path, children, i + 1, more);
        }
    }
}

proof fn lemma_round_updates(r: ResolverView, i: int, done: Seq<UpdateView>)
    ensures
        is_settled_result(r, r.round_updates(i, done)),
    decreases r.modules.len() - i,
{
    if 0 <= i < r.modules.len() && i < r.round_modules {
        match r.modules[i].loaded {
            None => {
                lemma_round_updates(r, i + 1, done);
            },
            Some(module) => {
                lemma_scope_updates(
                    r,
                    i as nat,
                    r.modules[i].path,
                    seq![],
                    module.scope,
                    0,
                    done,
                );
                if let Ok(more) = r.scope_updates(
                    i as nat,
                    r.modules[i].path,
                    seq![],
                    module.scope,
                    0,
                    done,
                ) {
                    lemma_round_updates(r, i + 1, more);
                }
            },
        }
    }
}

/// The modules know the same paths.
pub open spec fn same_paths(a: Seq<KnownView>, b: Seq<KnownView>) -> bool {
    a.len() == b.len() && forall|i: int| 0 <= i < a.len() ==> (#[trigger] a[i]).path == b[i].path
}

pub proof fn lemma_known_by_paths(a: Seq<KnownView>, b: Seq<KnownView>, path: Seq<Seq<char>>, i: int)
    requires
        same_paths(a, b),
        0 <= i,
    ensures
        known_from(a, path, i) is Some == known_from(b, path, i) is Some,
    decreases a.len() - i,
{
    if i < a.len() {
        assert(a[i].path == b[i].path);
        lemma_known_by_paths(a, b, path, i + 1);
    }
}

proof fn lemma_updates_keep_paths(modules: Seq<KnownView>, updates: Seq<UpdateView>, i: int)
    requires
        0 <= i,
    ensures
        same_paths(modules, with_updates(modules, updates, i)),
    decreases updates.len() - i,
{
    if i < updates.len() {
        let next = with_update(modules, updates[i]);
        assert(same_paths(modules, next));
        lemma_updates_keep_paths(next, updates, i + 1);
        let all = with_updates(next, updates, i + 1);
        assert forall|k: int| 0 <= k < modules.len() implies (#[trigger] modules[k]).path
            == all[k].path by {
            assert(next[k].path == all[k].path);
        }
    }
}

/// The rounds of the pending assignments wait for modules alone that the resolver asks for, and
/// leave its paths as they are. A resolver that does not follow imports goes through all of them.
pub proof fn lemma_rounds_are_settled(r: ResolverView)
    ensures
        same_paths(r.modules, r.after_rounds().0.modules),
        r.after_rounds().0.current_path == r.current_path,
        r.after_rounds().0.follows_imports == r.follows_imports,
        r.after_rounds().1 matches Some(p) ==> asks_for(r.after_rounds().0, p),
        r.after_rounds().1 is None ==> r.after_rounds().0.rounds_done >= MAX_PENDING_ROUNDS,
    decreases MAX_PENDING_ROUNDS - r.rounds_done,
{
    if r.rounds_done < MAX_PENDING_ROUNDS {
        lemma_round_updates(r, 0, seq![]);
        if let Ok(updates) = r.round_updates(0, seq![]) {
            if updates.len() > 0 {
                let next = ResolverView {
                    modules: with_updates(r.modules, updates, 0),
                    rounds_done: r.rounds_done + 1,
                    round_modules: r.modules.len(),
                    ..r
                };
                lemma_updates_keep_paths(r.modules, updates, 0);
                lemma_rounds_are_settled(next);
                let all = next.after_rounds().0.modules;
                assert forall|k: int| 0 <= k < r.modules.len() implies (
                #[trigger] r.modules[k]).path == all[k].path by {
                    assert(next.modules[k].path == all[k].path);
                }
            }
        }
    }
}

/// A resolver that does not follow imports goes through all rounds of its pending assignments,
/// and does not follow imports afterwards.
pub proof fn lemma_rounds_are_final(r: ResolverView)
    requires
        !r.follows_imports,
    ensures
        r.after_rounds().1 is None,
        !r.after_rounds().0.follows_imports,
        r.after_rounds().0.rounds_done >= MAX_PENDING_ROUNDS,
{
    lemma_rounds_are_settled(r);
}

/// The resolver, if there is one, does not follow imports.
pub open spec fn stays_local(resolver: Option<ResolverView>) -> bool {
    match resolver {
        Some(r) => !r.follows_imports,
        None => true,
    }
}

/// Where the reading of a decorator stops because a module has to be loaded, the resolver asks for
/// that module.
pub open spec fn is_settled_case<T>(
    resolver: Option<ResolverView>,
    case: Result<T, ObstacleView>,
) -> bool {
    match case {
        Err(ObstacleView::Needs(path)) => resolver is Some && asks_for(resolver->0, path),
        _ => true,
    }
}

/// Where the reading of decorators stops because a module has to be loaded, the resolver asks for
/// that module.
pub open spec fn is_settled_info<T>(
    resolver: Option<ResolverView>,
    info: Result<T, Seq<Seq<char>>>,
) -> bool {
    match info {
        Err(path) => resolver is Some && asks_for(resolver->0, path),
        _ => true,
    }
}

proof fn lemma_literal_parts(c: ContextView, e: ExprView)
    ensures
        is_settled_case(c.resolver, c.literal_parts(e)),
    decreases e, 2int, 0int,
{
    match e {
        ExprView::UnaryOp { minus, operand } => {
            assert(decreases_to!(e => e->operand));
            lemma_literal_parts(c, *operand);
        },
        ExprView::Tuple(elts) => {
            assert(decreases_to!(e => e->Tuple_0));
            lemma_literal_lists(c, elts, 0, seq![], seq![]);
            assert(is_settled_case(c.resolver, c.sequence_parts(elts)));
        },
        ExprView::List(elts) => {
            assert(decreases_to!(e => e->List_0));
            lemma_literal_lists(c, elts, 0, seq![], seq![]);
            assert(is_settled_case(c.resolver, c.sequence_parts(elts)));
        },
        ExprView::Name(_) => {
            if let Some(r) = c.resolver {
                lemma_resolution_is_settled(r, c.enclosing_class, e);
            }
        },
        ExprView::Attribute { .. } => {
            if let Some(r) = c.resolver {
                lemma_resolution_is_settled(r, c.enclosing_class, e);
            }
        },
        ExprView::Call { args, keywords, .. } => {
            assert(decreases_to!(e => e->args));
            lemma_param_parts(c, args, keywords);
        },
        _ => {},
    }
}

proof fn lemma_literal_lists(
    c: ContextView,
    elts: Seq<ExprView>,
    i: int,
    values: Seq<ValueView>,
    parts: Seq<PartView>,
)
    ensures
        is_settled_case(c.resolver, c.literal_lists(elts, i, values, parts)),
    decreases elts, 0int, elts.len() - i,
{
    if 0 <= i < elts.len() {
        lemma_literal_parts(c, elts[i]);
        if let Ok((value, more)) = c.literal_parts(elts[i]) {
            lemma_literal_lists(c, elts, i + 1, values.push(value), parts + more);
        }
    }
}

proof fn lemma_param_parts(c: ContextView, args: Seq<ExprView>, keywords: Seq<KeywordView>)
    ensures
        is_settled_case(c.resolver, c.param_parts(args, keywords)),
    decreases args, 1int, 0int,
{
    if args.len() == 1 {
        lemma_literal_parts(c, args[0]);
    } else if args.len() > 1 {
        lemma_literal_lists(c, args, 0, seq![], seq![]);
    }
}

proof fn lemma_component_cases(
    c: ContextView,
    components: Seq<ExprView>,
    i: int,
    argnames: Seq<Seq<char>>,
    case: nat,
    values: Seq<ValueView>,
    parts: Seq<Seq<char>>,
)
    ensures
        is_settled_case(c.resolver, c.component_cases(components, i, argnames, case, values, parts)),
    decreases components.len() - i,
{
    if 0 <= i < components.len() {
        lemma_literal_parts(c, components[i]);
        if let Ok((value, own)) = c.literal_parts(components[i]) {
            let part = if own.len() == 1 && own[0].is_opaque {
                positional(argnames, i, case)
            } else {
                joined(part_texts(own), "-"@)
            };
            lemma_component_cases(
                c,
                components,
                i + 1,
                argnames,
                case,
                values.push(value),
                parts.push(part),
            );
        }
    }
}

proof fn lemma_pytest_case(c: ContextView, e: ExprView, argnames: Seq<Seq<char>>, number: nat)
    ensures
        is_settled_case(c.resolver, c.pytest_case(e, argnames, number)),
{
    lemma_literal_parts(c, e);
    if let Some(components) = elements_of(e) {
        lemma_component_cases(c, components, 0, argnames, number, seq![], seq![]);
    }
}

proof fn lemma_listed_cases(
    c: ContextView,
    elts: Seq<ExprView>,
    i: int,
    argnames: Seq<Seq<char>>,
    values: Seq<ValueView>,
    ids: Seq<Seq<char>>,
)
    ensures
        is_settled_case(c.resolver, c.listed_cases(elts, i, argnames, values, ids)),
    decreases elts.len() - i,
{
    if 0 <= i < elts.len() {
        lemma_literal_parts(c, elts[i]);
        lemma_pytest_case(c, elts[i], argnames, i as nat);
        if let Ok((value, id)) = c.pytest_case(elts[i], argnames, i as nat) {
            lemma_listed_cases(c, elts, i + 1, argnames, values.push(value), ids.push(id));
        }
        if let Ok((value, id)) = c.finished_case(c.literal_parts(elts[i]), argnames, i as nat) {
            lemma_listed_cases(c, elts, i + 1, argnames, values.push(value), ids.push(id));
        }
    }
}

proof fn lemma_listed_ids(c: ContextView, elts: Seq<ExprView>, i: int, done: Seq<Seq<char>>)
    ensures
        is_settled_info(c.resolver, c.listed_ids(elts, i, done)),
    decreases elts.len() - i,
{
    if 0 <= i < elts.len() {
        lemma_literal_parts(c, elts[i]);
        if let ExprView::StringLiteral(s) = elts[i] {
            lemma_listed_ids(c, elts, i + 1, done.push(s));
        }
        if let Ok((value, _)) = c.literal_parts(elts[i]) {
            lemma_listed_ids(c, elts, i + 1, done.push(value_id(value)));
        }
    }
}

proof fn lemma_custom_ids(c: ContextView, keywords: Seq<KeywordView>, i: int)
    ensures
        is_settled_info(c.resolver, c.custom_ids(keywords, i)),
    decreases keywords.len() - i,
{
    if 0 <= i < keywords.len() {
        lemma_custom_ids(c, keywords, i + 1);
        lemma_literal_parts(c, keywords[i].value);
        if let ExprView::List(elts) = keywords[i].value {
            lemma_listed_ids(c, elts, 0, seq![]);
        }
    }
}

proof fn lemma_decorator_spec(
    e: ExprView,
    resolver: Option<ResolverView>,
    enclosing_class: Option<Seq<char>>,
)
    ensures
        is_settled_case(resolver, decorator_spec(e, resolver, enclosing_class)),
{
    if let ExprView::Call { func, args, keywords } = e {
        if let Some(style) = style_of(*func) {
            let c = ContextView { resolver, enclosing_class, style };
            lemma_custom_ids(c, keywords, 0);
            if args.len() >= 2 {
                if let Ok(argnames) = argnames_of(args[0]) {
                    match args[1] {
                        ExprView::List(elts) => {
                            lemma_listed_cases(c, elts, 0, argnames, seq![], seq![]);
                        },
                        ExprView::Tuple(elts) => {
                            lemma_listed_cases(c, elts, 0, argnames, seq![], seq![]);
                        },
                        _ => {
                            if let Some(r) = resolver {
                                lemma_resolution_is_settled(r, enclosing_class, args[1]);
                            }
                        },
                    }
                    assert(is_settled_case(resolver, c.argvalues(args[1], argnames)));
                }
            }
        }
    }
}

proof fn lemma_specs_from(
    decorators: Seq<ExprView>,
    i: int,
    resolver: Option<ResolverView>,
    enclosing_class: Option<Seq<char>>,
    done: Seq<SpecView>,
)
    ensures
        is_settled_case(resolver, specs_from(decorators, i, resolver, enclosing_class, done)),
    decreases decorators.len() - i,
{
    if 0 <= i < decorators.len() {
        lemma_decorator_spec(decorators[i], resolver, enclosing_class);
        match decorator_spec(decorators[i], resolver, enclosing_class) {
            Ok(Some(spec)) => {
                lemma_specs_from(decorators, i + 1, resolver, enclosing_class, done.push(spec));
            },
            _ => {
                lemma_specs_from(decorators, i + 1, resolver, enclosing_class, done);
            },
        }
    }
}

/// The reading of decorators waits for modules alone that the resolver asks for.
pub proof fn lemma_decorators_are_settled(
    decorators: Seq<ExprView>,
    resolver: Option<ResolverView>,
    enclosing_class: Option<Seq<char>>,
)
    ensures
        is_settled_info(resolver, decorators_info(decorators, resolver, enclosing_class)),
        is_settled_info(resolver, decorators_expansion(decorators, resolver, enclosing_class)),
{
    lemma_specs_from(decorators, 0, resolver, enclosing_class, seq![]);
}

/// Decorators that are read against a resolver that does not follow imports, or against none, are
/// read to the end.
pub proof fn lemma_decorators_are_final(
    decorators: Seq<ExprView>,
    resolver: Option<ResolverView>,
    enclosing_class: Option<Seq<char>>,
)
    requires
        stays_local(resolver),
    ensures
        decorators_info(decorators, resolver, enclosing_class) is Ok,
        decorators_expansion(decorators, resolver, enclosing_class) is Ok,
{
    lemma_decorators_are_settled(decorators, resolver, enclosing_class);
}

} // verus!
