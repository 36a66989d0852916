//! What names and attributes stand for: constants, members of classes and enums, and what is
//! imported from other modules.

use crate::python_discovery::ancestry_laws::{is_class, is_last_class};
use crate::python_discovery::cases::{value_id, ValueView};
use crate::python_discovery::constant_resolver::{
    class_bound, fresh_resolver, is_skipped, module_of, with_update, with_updates, KnownView,
    LookupView, ResolvedView, ResolverView, UpdateView,
};
use crate::python_discovery::constants::{
    any_enum, any_enum_base, base_exprs, class_member, class_scope, empty_scope, enum_definer,
    is_enum_class, literal_of, literals_from, member_of_bases, names_enum, path_of, pending_from,
    pending_of, recorded, scope_from, scope_of, simple_bases, with_constant_at, PendingView,
    ScopeView,
};
use crate::python_discovery::decorators::{part_texts, resolved_id, ContextView, ParamIdStyle};
use crate::python_discovery::discovery_laws::{
    assigned, assigns, attribute, is_last_assignment, lemma_class_constant_resolves,
    lemma_constant_is_inherited, lemma_constant_is_kept, lemma_constant_resolves,
    lemma_enum_member_ids, lemma_fresh_module_is_loaded, lemma_imported_constant_resolves,
    lemma_last_assignment_is_known,
};
use crate::python_discovery::import_laws::{
    aliases_of, is_last_known, lemma_last_known_is_bound, spells,
};
use crate::python_discovery::module_resolver::absolute_import;
use crate::python_discovery::parametrize_laws::{
    denotes, lemma_literals_from, lemma_literals_keep_their_values,
};
use crate::python_discovery::stdlib::in_standard_library;
use crate::python_discovery::syntax::{ClassView, ExprView, StmtView};
use crate::strings::{joined, lemma_joined_is_split_back};
use crate::table::{entry, keys, lemma_entry_after_insert, lemma_place_from, place, with_entry};
use vstd::prelude::*;

verus! {

// ---------------------------------------------------------------------------------------------
// What a module holds
// ---------------------------------------------------------------------------------------------
proof fn lemma_entry_after_push<V>(
    entries: Seq<(Seq<char>, V)>,
    key: Seq<char>,
    value: V,
    name: Seq<char>,
)
    ensures
        entry(entries.push((key, value)), name) == match entry(entries, name) {
            Some(found) => Some(found),
            None => if key == name {
                Some(value)
            } else {
                None
            },
        },
{
    let all = entries.push((key, value));
    lemma_place_from(keys(entries), name, 0);
    lemma_place_from(keys(all), name, 0);
    let p = place(keys(entries), name);
    let q = place(keys(all), name);
    assert(forall|j: int| 0 <= j < entries.len() ==> keys(all)[j] == keys(entries)[j]);
    assert(keys(all)[entries.len() as int] == key);
    if p < entries.len() {
        assert(keys(all)[p] == name);
        if q < p {
            assert(keys(entries)[q] == name);
        }
    } else if q < entries.len() {
        assert(keys(entries)[q] == name);
    }
}

proof fn lemma_pending_recorded(scope: ScopeView, id: Seq<char>, value: ExprView, name: Seq<char>)
    requires
        id != name,
    ensures
        entry(recorded(scope, id, value).pending, name) == entry(scope.pending, name),
{
    if literal_of(value) is None {
        if let Some(elements) = pending_of(value) {
            lemma_entry_after_push(scope.pending, id, elements, name);
        }
    }
}

/// The scope after one statement.
spec fn scope_after(stmt: StmtView, done: ScopeView) -> ScopeView {
    match stmt {
        StmtView::Assign { targets, value } => if targets.len() == 1 {
            match targets[0] {
                ExprView::Name(id) => recorded(done, id, value),
                _ => done,
            }
        } else {
            done
        },
        StmtView::AnnAssign { target, initial } => match (target, initial) {
            (ExprView::Name(id), Some(value)) => recorded(done, id, value),
            _ => done,
        },
        StmtView::ClassDef(class) => ScopeView {
            children: with_entry(done.children, class.name, class_scope(class)),
            ..done
        },
        _ => done,
    }
}

proof fn lemma_scope_step(stmts: Seq<StmtView>, i: int, done: ScopeView)
    requires
        0 <= i < stmts.len(),
    ensures
        scope_from(stmts, i, done) == scope_from(stmts, i + 1, scope_after(stmts[i], done)),
{
}

proof fn lemma_pending_is_kept(stmts: Seq<StmtView>, i: int, name: Seq<char>, done: ScopeView)
    requires
        0 <= i,
        forall|j: int| i <= j < stmts.len() ==> !assigns(#[trigger] stmts[j], name),
    ensures
        entry(scope_from(stmts, i, done).pending, name) == entry(done.pending, name),
    decreases stmts.len() - i,
{
    if i < stmts.len() {
        assert(!assigns(stmts[i], name));
        lemma_scope_step(stmts, i, done);
        match stmts[i] {
            StmtView::Assign { targets, value } => {
                if targets.len() == 1 {
                    if let ExprView::Name(id) = targets[0] {
                        lemma_pending_recorded(done, id, value, name);
                    }
                }
            },
            StmtView::AnnAssign { target, initial } => {
                if let (ExprView::Name(id), Some(value)) = (target, initial) {
                    lemma_pending_recorded(done, id, value, name);
                }
            },
            _ => {},
        }
        lemma_pending_is_kept(stmts, i + 1, name, scope_after(stmts[i], done));
    }
}

/// A name that a module gives no value has none.
pub proof fn lemma_unassigned_name(stmts: Seq<StmtView>, name: Seq<char>)
    requires
        forall|j: int| 0 <= j < stmts.len() ==> !assigns(#[trigger] stmts[j], name),
    ensures
        entry(scope_of(stmts).constants, name) is None,
        entry(scope_of(stmts).pending, name) is None,
{
    lemma_constant_is_kept(stmts, 0, name, empty_scope());
    lemma_pending_is_kept(stmts, 0, name, empty_scope());
}

proof fn lemma_children_recorded(stmts: Seq<StmtView>, i: int, done: ScopeView, name: Seq<char>)
    requires
        0 <= i < stmts.len(),
    ensures
        entry(scope_after(stmts[i], done).children, name) == if is_class(stmts[i], name) {
            Some(class_scope(stmts[i]->ClassDef_0))
        } else {
            entry(done.children, name)
        },
{
    if let StmtView::ClassDef(class) = stmts[i] {
        lemma_entry_after_insert(done.children, class.name, class_scope(class), name);
    }
}

proof fn lemma_class_in_scope(
    stmts: Seq<StmtView>,
    i: int,
    done: ScopeView,
    j: int,
    name: Seq<char>,
)
    requires
        0 <= i,
        forall|m: int| i <= m < stmts.len() && m > j ==> !is_class(#[trigger] stmts[m], name),
        i <= j ==> j < stmts.len() && is_class(stmts[j], name),
    ensures
        entry(scope_from(stmts, i, done).children, name) == if i <= j {
            Some(class_scope(stmts[j]->ClassDef_0))
        } else {
            entry(done.children, name)
        },
    decreases stmts.len() - i,
{
    if i < stmts.len() {
        lemma_scope_step(stmts, i, done);
        lemma_children_recorded(stmts, i, done, name);
        lemma_class_in_scope(stmts, i + 1, scope_after(stmts[i], done), j, name);
        if i > j {
            assert(!is_class(stmts[i], name));
        }
    }
}

/// A module knows a class by its last definition, and no class that it does not define.
pub proof fn lemma_class_is_in_scope(stmts: Seq<StmtView>, j: int, name: Seq<char>)
    ensures
        is_last_class(stmts, j, name) ==> entry(scope_of(stmts).children, name) == Some(
            class_scope(stmts[j]->ClassDef_0),
        ),
        (forall|m: int| 0 <= m < stmts.len() ==> !is_class(#[trigger] stmts[m], name)) ==> entry(
            scope_of(stmts).children,
            name,
        ) is None,
{
    if is_last_class(stmts, j, name) {
        lemma_class_in_scope(stmts, 0, empty_scope(), j, name);
    }
    if forall|m: int| 0 <= m < stmts.len() ==> !is_class(#[trigger] stmts[m], name) {
        lemma_class_in_scope(stmts, 0, empty_scope(), -1, name);
    }
}

// ---------------------------------------------------------------------------------------------
// Members of classes
// ---------------------------------------------------------------------------------------------
/// The class assigns the literal to the member last.
pub open spec fn has_member(
    class: ClassView,
    i: int,
    member: Seq<char>,
    value: ValueView,
) -> bool {
    is_last_assignment(class.body, i, member) && denotes(assigned(class.body[i]), value)
}

/// One of the bases is a class of Python's `enum`, by its name.
pub open spec fn is_enum_by_name(class: ClassView) -> bool {
    class.bases is Some && exists|k: int|
        #![trigger class.bases->0[k]]
        0 <= k < class.bases->0.len() && {
            ||| class.bases->0[k] == ExprView::Name("Enum"@)
            ||| class.bases->0[k] == ExprView::Name("IntEnum"@)
            ||| class.bases->0[k] == ExprView::Name("StrEnum"@)
            ||| class.bases->0[k] == ExprView::Name("Flag"@)
            ||| class.bases->0[k] == ExprView::Name("IntFlag"@)
        }
}

proof fn lemma_simple_bases(exprs: Seq<ExprView>, k: int, name: Seq<char>)
    requires
        0 <= k < exprs.len(),
        exprs[k] == ExprView::Name(name),
    ensures
        simple_bases(exprs).contains(name),
    decreases exprs.len(),
{
    let all = simple_bases(exprs);
    let front = simple_bases(exprs.drop_last());
    if k < exprs.len() - 1 {
        lemma_simple_bases(exprs.drop_last(), k, name);
        let x = choose|x: int| 0 <= x < front.len() && front[x] == name;
        assert(all[x] == name);
    } else {
        assert(exprs.last() == exprs[k]);
        assert(all.last() == name);
    }
}

proof fn lemma_enum_by_name(class: ClassView)
    ensures
        is_enum_by_name(class) ==> class_scope(class).is_enum,
        base_exprs(class).len() == 0 ==> !class_scope(class).is_enum && class_scope(
            class,
        ).bases.len() == 0,
{
    let exprs = base_exprs(class);
    let list = simple_bases(exprs);
    if is_enum_by_name(class) {
        let k = choose|k: int|
            #![trigger class.bases->0[k]]
            0 <= k < class.bases->0.len() && {
                ||| class.bases->0[k] == ExprView::Name("Enum"@)
                ||| class.bases->0[k] == ExprView::Name("IntEnum"@)
                ||| class.bases->0[k] == ExprView::Name("StrEnum"@)
                ||| class.bases->0[k] == ExprView::Name("Flag"@)
                ||| class.bases->0[k] == ExprView::Name("IntFlag"@)
            };
        let name = exprs[k]->Name_0;
        lemma_simple_bases(exprs, k, name);
        let x = choose|x: int| 0 <= x < list.len() && list[x] == name;
        assert(names_enum(list[x]));
        assert(any_enum(list));
    }
}

/// A member of a class without bases stands for the literal that the class assigns to it; a member
/// of an enum stands for itself.
pub proof fn lemma_member_resolves(
    resolver: ResolverView,
    stmts: Seq<StmtView>,
    j: int,
    class: Seq<char>,
    i: int,
    member: Seq<char>,
    value: ValueView,
)
    requires
        resolver.loaded(resolver.current_path) == Some(module_of(stmts)),
        is_last_class(stmts, j, class),
        has_member(stmts[j]->ClassDef_0, i, member, value),
    ensures
        stmts[j]->ClassDef_0.bases is None ==> resolver.resolution(None, attribute(class, member))
            == Ok::<Option<ResolvedView>, Seq<Seq<char>>>(
            Some(
                ResolvedView { value, source_path: seq![class, member], is_enum_member: false },
            ),
        ),
        is_enum_by_name(stmts[j]->ClassDef_0) ==> resolver.resolution(
            None,
            attribute(class, member),
        ) == Ok::<Option<ResolvedView>, Seq<Seq<char>>>(
            Some(
                ResolvedView {
                    value: ValueView::EnumMember { class_name: class, member_name: member },
                    source_path: seq![class, member],
                    is_enum_member: true,
                },
            ),
        ),
{
    let def = stmts[j]->ClassDef_0;
    let scope = scope_of(stmts);
    let context = ContextView {
        resolver: Some(resolver),
        enclosing_class: None,
        style: ParamIdStyle::RuntimeValue,
    };
    lemma_class_is_in_scope(stmts, j, class);
    lemma_literals_keep_their_values(assigned(def.body[i]), value, context);
    lemma_last_assignment_is_known(def.body, i, member);
    assert(class_scope(def).constants == scope_of(def.body).constants);
    lemma_class_constant_resolves(resolver, class, member, value);
    lemma_enum_by_name(def);
}

/// The ID of an enum member is `Class.MEMBER`, that of another class constant for `parametrize` the
/// text of its value.
pub proof fn lemma_ids_of_members(
    stmts: Seq<StmtView>,
    path: Seq<Seq<char>>,
    follows_imports: bool,
    j: int,
    class: Seq<char>,
    i: int,
    member: Seq<char>,
    value: ValueView,
    style: ParamIdStyle,
)
    requires
        is_last_class(stmts, j, class),
        has_member(stmts[j]->ClassDef_0, i, member, value),
    ensures
        ({
            let context = ContextView {
                resolver: Some(fresh_resolver(stmts, path, follows_imports)),
                enclosing_class: None,
                style,
            };
            let case = context.literal_case(attribute(class, member));
            let def = stmts[j]->ClassDef_0;
            &&& is_enum_by_name(def) ==> case is Ok && case->Ok_0.1 == class + seq!['.'] + member
            &&& def.bases is None ==> {
                &&& case is Ok
                &&& case->Ok_0.0 == value
                &&& style == ParamIdStyle::RuntimeValue ==> case->Ok_0.1 == value_id(value)
                &&& style == ParamIdStyle::SourcePath ==> case->Ok_0.1 == class + seq!['.']
                    + member
            }
        }),
{
    let resolver = fresh_resolver(stmts, path, follows_imports);
    let context = ContextView { resolver: Some(resolver), enclosing_class: None, style };
    let e = attribute(class, member);
    let def = stmts[j]->ClassDef_0;
    lemma_fresh_module_is_loaded(stmts, path, follows_imports);
    lemma_member_resolves(resolver, stmts, j, class, i, member, value);
    if is_enum_by_name(def) || def.bases is None {
        let resolved = resolver.resolution(None, e)->Ok_0->0;
        if resolved.is_enum_member {
            lemma_enum_member_ids(class, member, style, resolved);
        } else {
            lemma_enum_member_ids(
                class,
                member,
                ParamIdStyle::SourcePath,
                ResolvedView { is_enum_member: true, ..resolved },
            );
        }
        let parts = context.literal_parts(e)->Ok_0.1;
        assert(part_texts(parts) =~= seq![resolved_id(resolved, style)]);
        assert(joined(part_texts(parts), "-"@) == resolved_id(resolved, style));
    }
}

/// A class that does not assign a member has that of its first base class in the module.
pub proof fn lemma_member_is_inherited(
    stmts: Seq<StmtView>,
    j: int,
    class: Seq<char>,
    b: int,
    base: Seq<char>,
    i: int,
    member: Seq<char>,
    value: ValueView,
    context: ContextView,
)
    requires
        is_last_class(stmts, j, class),
        is_last_class(stmts, b, base),
        stmts[j]->ClassDef_0.bases is Some,
        stmts[j]->ClassDef_0.bases->0.len() == 1,
        stmts[j]->ClassDef_0.bases->0[0] == ExprView::Name(base),
        !names_enum(base),
        has_member(stmts[b]->ClassDef_0, i, member, value),
        forall|m: int|
            0 <= m < stmts[j]->ClassDef_0.body.len() ==> !assigns(
                #[trigger] stmts[j]->ClassDef_0.body[m],
                member,
            ),
    ensures
        class_member(scope_of(stmts), class, member, scope_of(stmts).children.len()) == Some(value),
{
    let scope = scope_of(stmts);
    let def = stmts[j]->ClassDef_0;
    let base_def = stmts[b]->ClassDef_0;
    lemma_class_is_in_scope(stmts, j, class);
    lemma_class_is_in_scope(stmts, b, base);
    lemma_literals_keep_their_values(assigned(base_def.body[i]), value, context);
    lemma_last_assignment_is_known(base_def.body, i, member);
    lemma_unassigned_name(def.body, member);
    let exprs = base_exprs(def);
    assert(exprs.drop_last() =~= Seq::<ExprView>::empty());
    assert(simple_bases(exprs.drop_last()) =~= Seq::<Seq<char>>::empty());
    assert(simple_bases(exprs) =~= seq![base]);
    lemma_place_from(keys(scope.children), class, 0);
    lemma_constant_is_inherited(scope, class, base, member, value, scope.children.len());
}

// ---------------------------------------------------------------------------------------------
// Imported names
// ---------------------------------------------------------------------------------------------
/// The name is imported from the module `target` by the `k`-th alias of the `i`-th statement, where
/// it is called `original`.
pub open spec fn is_imported_from(
    stmts: Seq<StmtView>,
    current: Seq<Seq<char>>,
    i: int,
    k: int,
    name: Seq<char>,
    target: Seq<Seq<char>>,
    original: Seq<char>,
) -> bool {
    &&& is_last_known(stmts, i, k, name)
    &&& stmts[i] is ImportFrom
    &&& stmts[i]->ImportFrom_module is Some
    &&& original.len() > 0 && aliases_of(stmts[i])[k].name == original
    &&& if stmts[i]->level == 0 {
        spells(target, stmts[i]->ImportFrom_module->0)
    } else {
        let up = current.len() - stmts[i]->level;
        &&& 0 <= up <= target.len()
        &&& target.take(up) == current.take(up)
        &&& spells(target.skip(up), stmts[i]->ImportFrom_module->0)
    }
}

proof fn lemma_import_leads(
    stmts: Seq<StmtView>,
    current: Seq<Seq<char>>,
    i: int,
    k: int,
    name: Seq<char>,
    target: Seq<Seq<char>>,
    original: Seq<char>,
)
    requires
        is_imported_from(stmts, current, i, k, name, target, original),
    ensures
        entry(module_of(stmts).imports, name) is Some,
        ({
            let import = entry(module_of(stmts).imports, name)->0;
            &&& import.imported_name == original
            &&& absolute_import(current, import.relative_level, import.mod_path) == Some(target)
        }),
{
    lemma_last_known_is_bound(stmts, i, k, name);
    let import = entry(module_of(stmts).imports, name)->0;
    let dotted = stmts[i]->ImportFrom_module->0;
    lemma_joined_is_split_back(import.mod_path, '.');
    if stmts[i]->level == 0 {
        lemma_joined_is_split_back(target, '.');
    } else {
        let up = current.len() - stmts[i]->level;
        lemma_joined_is_split_back(target.skip(up), '.');
        assert(target =~= target.take(up) + target.skip(up));
    }
}

/// A name that is imported from a module stands for the constant of that module, by the name that
/// it has there.
pub proof fn lemma_imported_literal(
    resolver: ResolverView,
    stmts: Seq<StmtView>,
    i: int,
    k: int,
    name: Seq<char>,
    target: Seq<Seq<char>>,
    original: Seq<char>,
    others: Seq<StmtView>,
    m: int,
    value: ValueView,
)
    requires
        resolver.loaded(resolver.current_path) == Some(module_of(stmts)),
        resolver.loaded(target) == Some(module_of(others)),
        is_imported_from(stmts, resolver.current_path, i, k, name, target, original),
        forall|j: int| 0 <= j < stmts.len() ==> !assigns(#[trigger] stmts[j], name),
        is_last_assignment(others, m, original),
        denotes(assigned(others[m]), value),
    ensures
        resolver.resolution(None, ExprView::Name(name)) == Ok::<
            Option<ResolvedView>,
            Seq<Seq<char>>,
        >(Some(ResolvedView { value, source_path: seq![name], is_enum_member: false })),
{
    let context = ContextView {
        resolver: Some(resolver),
        enclosing_class: None,
        style: ParamIdStyle::RuntimeValue,
    };
    lemma_unassigned_name(stmts, name);
    lemma_import_leads(stmts, resolver.current_path, i, k, name, target, original);
    lemma_literals_keep_their_values(assigned(others[m]), value, context);
    lemma_last_assignment_is_known(others, m, original);
    lemma_imported_constant_resolves(
        resolver,
        name,
        entry(module_of(stmts).imports, name)->0,
        target,
        value,
    );
}

/// A member of an imported class stands for the literal that the class assigns to it in its module;
/// a member of an imported enum stands for itself.
pub proof fn lemma_imported_member(
    resolver: ResolverView,
    stmts: Seq<StmtView>,
    i: int,
    k: int,
    class: Seq<char>,
    target: Seq<Seq<char>>,
    original: Seq<char>,
    others: Seq<StmtView>,
    j: int,
    m: int,
    member: Seq<char>,
    value: ValueView,
)
    requires
        resolver.loaded(resolver.current_path) == Some(module_of(stmts)),
        resolver.loaded(target) == Some(module_of(others)),
        is_imported_from(stmts, resolver.current_path, i, k, class, target, original),
        forall|x: int| 0 <= x < stmts.len() ==> !is_class(#[trigger] stmts[x], class),
        is_last_class(others, j, original),
        has_member(others[j]->ClassDef_0, m, member, value),
    ensures
        others[j]->ClassDef_0.bases is None ==> resolver.resolution(None, attribute(class, member))
            == Ok::<Option<ResolvedView>, Seq<Seq<char>>>(
            Some(
                ResolvedView { value, source_path: seq![class, member], is_enum_member: false },
            ),
        ),
        is_enum_by_name(others[j]->ClassDef_0) ==> resolver.resolution(
            None,
            attribute(class, member),
        ) == Ok::<Option<ResolvedView>, Seq<Seq<char>>>(
            Some(
                ResolvedView {
                    value: ValueView::EnumMember { class_name: class, member_name: member },
                    source_path: seq![class, member],
                    is_enum_member: true,
                },
            ),
        ),
{
    let def = others[j]->ClassDef_0;
    let current = resolver.current_path;
    let scope = scope_of(others);
    let context = ContextView {
        resolver: Some(resolver),
        enclosing_class: None,
        style: ParamIdStyle::RuntimeValue,
    };
    lemma_class_is_in_scope(stmts, -1, class);
    lemma_class_is_in_scope(others, j, original);
    lemma_import_leads(stmts, current, i, k, class, target, original);
    lemma_literals_keep_their_values(assigned(def.body[m]), value, context);
    lemma_last_assignment_is_known(def.body, m, member);
    lemma_enum_by_name(def);
    let import = entry(module_of(stmts).imports, class)->0;
    let path = seq![class, member];
    let there = seq![original, member];
    let is_enum = is_enum_class(scope, original, scope.children.len());
    reveal_with_fuel(path_of, 2);
    assert(path_of(attribute(class, member))->0 =~= path);
    assert(path.drop_first() =~= seq![member]);
    assert(seq![import.imported_name] + path.drop_first() =~= there);
    assert(there.drop_first() =~= seq![member]);
    assert(there.drop_first()[0] == member && there[0] == original && path[0] == class);
    assert(class_member(scope, original, member, scope.children.len()) == Some(value));
    let found = resolver.in_class(target, original, there.drop_first(), 1);
    assert(found matches LookupView::Found(v, _) && v == value);
    if def.bases is None || is_enum_by_name(def) {
        assert(found == LookupView::Found(value, is_enum_by_name(def) && !(def.bases is None)));
    }
    assert(resolver.at_path(target, None, there, 1) == found);
    assert(resolver.at_path(current, None, path, 0) == found);
}

/// `import module` makes the constants of the module known as its attributes.
pub proof fn lemma_attribute_of_module(
    resolver: ResolverView,
    stmts: Seq<StmtView>,
    i: int,
    k: int,
    name: Seq<char>,
    target: Seq<Seq<char>>,
    others: Seq<StmtView>,
    m: int,
    member: Seq<char>,
    value: ValueView,
)
    requires
        resolver.loaded(resolver.current_path) == Some(module_of(stmts)),
        resolver.loaded(target) == Some(module_of(others)),
        is_last_known(stmts, i, k, name),
        stmts[i] is Import,
        aliases_of(stmts[i])[k].asname is Some ==> spells(target, aliases_of(stmts[i])[k].name),
        aliases_of(stmts[i])[k].asname is None ==> target == seq![name],
        forall|x: int| 0 <= x < stmts.len() ==> !is_class(#[trigger] stmts[x], name),
        is_last_assignment(others, m, member),
        denotes(assigned(others[m]), value),
    ensures
        resolver.resolution(None, attribute(name, member)) == Ok::<
            Option<ResolvedView>,
            Seq<Seq<char>>,
        >(Some(ResolvedView { value, source_path: seq![name, member], is_enum_member: false })),
{
    let current = resolver.current_path;
    let context = ContextView {
        resolver: Some(resolver),
        enclosing_class: None,
        style: ParamIdStyle::RuntimeValue,
    };
    lemma_class_is_in_scope(stmts, -1, name);
    lemma_last_known_is_bound(stmts, i, k, name);
    let import = entry(module_of(stmts).imports, name)->0;
    if aliases_of(stmts[i])[k].asname is Some {
        lemma_joined_is_split_back(import.mod_path, '.');
        lemma_joined_is_split_back(target, '.');
    }
    assert(import.mod_path == target);
    lemma_literals_keep_their_values(assigned(others[m]), value, context);
    lemma_last_assignment_is_known(others, m, member);
    let path = seq![name, member];
    reveal_with_fuel(path_of, 2);
    assert(path_of(attribute(name, member))->0 =~= path);
    assert(path.drop_first() =~= seq![member]);
    assert(path[0] == name && path.drop_first()[0] == member);
    assert(resolver.at_name(target, None, member, 1) == LookupView::Found(value, false));
    assert(resolver.at_path(target, None, path.drop_first(), 1) == LookupView::Found(
        value,
        false,
    ));
    assert(resolver.at_path(current, None, path, 0) == LookupView::Found(value, false));
}

// ---------------------------------------------------------------------------------------------
// Sequences of names
// ---------------------------------------------------------------------------------------------
/// The expression is a literal with that value, or a name that was last assigned one.
pub open spec fn is_worth(stmts: Seq<StmtView>, e: ExprView, value: ValueView) -> bool {
    ||| denotes(e, value)
    ||| e is Name && exists|i: int| #[trigger]
        is_last_assignment(stmts, i, e->Name_0) && denotes(assigned(stmts[i]), value)
}

proof fn lemma_not_literal(elts: Seq<ExprView>, i: int, done: Seq<ValueView>, k: int)
    requires
        0 <= i <= k < elts.len(),
        elts[k] is Name,
    ensures
        literals_from(elts, i, done) is None,
    decreases k - i,
{
    if i < k {
        if let Some(value) = literal_of(elts[i]) {
            lemma_not_literal(elts, i + 1, done.push(value), k);
        }
    }
}

/// What is kept of an element until its name can be looked up.
spec fn pending_for(e: ExprView, value: ValueView) -> PendingView {
    if e is Name {
        PendingView::Path(seq![e->Name_0])
    } else {
        PendingView::Literal(value)
    }
}

proof fn lemma_pending_elements(
    stmts: Seq<StmtView>,
    elts: Seq<ExprView>,
    values: Seq<ValueView>,
    i: int,
    done: Seq<PendingView>,
    context: ContextView,
)
    requires
        0 <= i <= elts.len(),
        values.len() == elts.len(),
        forall|k: int| 0 <= k < elts.len() ==> is_worth(stmts, #[trigger] elts[k], values[k]),
    ensures
        pending_from(elts, i, done) == Some(
            done + Seq::new(
                (elts.len() - i) as nat,
                |k: int| pending_for(elts[i + k], values[i + k]),
            ),
        ),
    decreases elts.len() - i,
{
    let rest = Seq::new((elts.len() - i) as nat, |k: int| pending_for(elts[i + k], values[i + k]));
    if i < elts.len() {
        let e = elts[i];
        assert(is_worth(stmts, e, values[i]));
        if !(e is Name) {
            lemma_literals_keep_their_values(e, values[i], context);
        }
        let next = pending_for(e, values[i]);
        lemma_pending_elements(stmts, elts, values, i + 1, done.push(next), context);
        let more = Seq::new(
            (elts.len() - (i + 1)) as nat,
            |k: int| pending_for(elts[i + 1 + k], values[i + 1 + k]),
        );
        assert(done.push(next) + more =~= done + rest);
    } else {
        assert(done + rest =~= done);
    }
}

proof fn lemma_pending_values(
    resolver: ResolverView,
    stmts: Seq<StmtView>,
    elts: Seq<ExprView>,
    values: Seq<ValueView>,
    elements: Seq<PendingView>,
    i: int,
    done: Seq<ValueView>,
    context: ContextView,
)
    requires
        resolver.loaded(resolver.current_path) == Some(module_of(stmts)),
        0 <= i <= elts.len(),
        values.len() == elts.len(),
        elements.len() == elts.len(),
        forall|k: int| 0 <= k < elts.len() ==> is_worth(stmts, #[trigger] elts[k], values[k]),
        forall|k: int|
            0 <= k < elts.len() ==> #[trigger] elements[k] == pending_for(elts[k], values[k]),
    ensures
        resolver.sequence_from(resolver.current_path, elements, i, done, 0) == LookupView::Found(
            ValueView::Sequence(done + values.skip(i)),
            false,
        ),
    decreases elts.len() - i,
{
    let current = resolver.current_path;
    if i < elts.len() {
        let e = elts[i];
        assert(elements[i] == pending_for(e, values[i]));
        assert(is_worth(stmts, e, values[i]));
        if e is Name {
            let x = e->Name_0;
            let m = choose|m: int| #[trigger]
                is_last_assignment(stmts, m, x) && denotes(assigned(stmts[m]), values[i]);
            lemma_literals_keep_their_values(assigned(stmts[m]), values[i], context);
            lemma_last_assignment_is_known(stmts, m, x);
            assert(seq![x][0] == x);
            assert(resolver.at_name(current, None, x, 1) == LookupView::Found(values[i], false));
            assert(resolver.at_path(current, None, seq![x], 1) == LookupView::Found(
                values[i],
                false,
            ));
        }
        lemma_pending_values(
            resolver,
            stmts,
            elts,
            values,
            elements,
            i + 1,
            done.push(values[i]),
            context,
        );
        assert(done.push(values[i]) + values.skip(i + 1) =~= done + values.skip(i));
    } else {
        assert(done + values.skip(i) =~= done);
    }
}

proof fn lemma_pending_is_known(
    stmts: Seq<StmtView>,
    from: int,
    done: ScopeView,
    i: int,
    name: Seq<char>,
    elements: Seq<PendingView>,
)
    requires
        0 <= from <= i < stmts.len(),
        assigns(stmts[i], name),
        forall|j: int| 0 <= j < stmts.len() && j != i ==> !assigns(#[trigger] stmts[j], name),
        literal_of(assigned(stmts[i])) is None,
        pending_of(assigned(stmts[i])) == Some(elements),
        entry(done.constants, name) is None,
        entry(done.pending, name) is None,
    ensures
        entry(scope_from(stmts, from, done).constants, name) is None,
        entry(scope_from(stmts, from, done).pending, name) == Some(elements),
    decreases i - from,
{
    let next = scope_after(stmts[from], done);
    lemma_scope_step(stmts, from, done);
    if from < i {
        assert(!assigns(stmts[from], name));
        match stmts[from] {
            StmtView::Assign { targets, value } => {
                if targets.len() == 1 {
                    if let ExprView::Name(id) = targets[0] {
                        lemma_pending_recorded(done, id, value, name);
                        lemma_constant_recorded(done, id, value, name);
                    }
                }
            },
            StmtView::AnnAssign { target, initial } => {
                if let (ExprView::Name(id), Some(value)) = (target, initial) {
                    lemma_pending_recorded(done, id, value, name);
                    lemma_constant_recorded(done, id, value, name);
                }
            },
            _ => {},
        }
        lemma_pending_is_known(stmts, from + 1, next, i, name, elements);
    } else {
        lemma_entry_after_push(done.pending, name, elements, name);
        assert(next == recorded(done, name, assigned(stmts[i])));
        assert forall|j: int| i + 1 <= j < stmts.len() implies !assigns(
            #[trigger] stmts[j],
            name,
        ) by {}
        lemma_pending_is_kept(stmts, i + 1, name, next);
        lemma_constant_is_kept(stmts, i + 1, name, next);
    }
}

proof fn lemma_constant_recorded(scope: ScopeView, id: Seq<char>, value: ExprView, name: Seq<char>)
    requires
        id != name,
    ensures
        entry(recorded(scope, id, value).constants, name) == entry(scope.constants, name),
{
    if let Some(literal) = literal_of(value) {
        lemma_entry_after_insert(scope.constants, id, literal, name);
    }
}

/// A list or tuple of literals and of names of constants stands for the values of these, in order.
pub proof fn lemma_sequence_of_names(
    resolver: ResolverView,
    stmts: Seq<StmtView>,
    i: int,
    name: Seq<char>,
    elts: Seq<ExprView>,
    values: Seq<ValueView>,
)
    requires
        resolver.loaded(resolver.current_path) == Some(module_of(stmts)),
        0 <= i < stmts.len(),
        assigns(stmts[i], name),
        forall|j: int| 0 <= j < stmts.len() && j != i ==> !assigns(#[trigger] stmts[j], name),
        assigned(stmts[i]) == ExprView::List(elts) || assigned(stmts[i]) == ExprView::Tuple(elts),
        values.len() == elts.len(),
        forall|k: int| 0 <= k < elts.len() ==> is_worth(stmts, #[trigger] elts[k], values[k]),
    ensures
        resolver.resolution(None, ExprView::Name(name)) == Ok::<
            Option<ResolvedView>,
            Seq<Seq<char>>,
        >(
            Some(
                ResolvedView {
                    value: ValueView::Sequence(values),
                    source_path: seq![name],
                    is_enum_member: false,
                },
            ),
        ),
{
    let current = resolver.current_path;
    let context = ContextView {
        resolver: Some(resolver),
        enclosing_class: None,
        style: ParamIdStyle::RuntimeValue,
    };
    if exists|k: int| 0 <= k < elts.len() && (#[trigger] elts[k]) is Name {
        let k = choose|k: int| 0 <= k < elts.len() && (#[trigger] elts[k]) is Name;
        lemma_not_literal(elts, 0, seq![], k);
        lemma_pending_elements(stmts, elts, values, 0, seq![], context);
        let rest = Seq::new(
            (elts.len() - 0) as nat,
            |k: int| pending_for(elts[0 + k], values[0 + k]),
        );
        let elements = Seq::<PendingView>::empty() + rest;
        assert(pending_of(assigned(stmts[i])) == Some(elements));
        lemma_pending_is_known(stmts, 0, empty_scope(), i, name, elements);
        lemma_pending_values(resolver, stmts, elts, values, elements, 0, seq![], context);
        assert(Seq::<ValueView>::empty() + values.skip(0) =~= values);
        let found = LookupView::Found(ValueView::Sequence(values), false);
        assert(resolver.at_name(current, None, name, 0) == found);
        assert(seq![name][0] == name);
        assert(resolver.at_path(current, None, seq![name], 0) == found);
    } else {
        assert forall|k: int| 0 <= k < elts.len() implies denotes(#[trigger] elts[k], values[k]) by {
            assert(is_worth(stmts, elts[k], values[k]));
        }
        lemma_literals_from(elts, 0, seq![], values, context);
        assert(Seq::<ValueView>::empty() + values.skip(0) =~= values);
        assert(is_last_assignment(stmts, i, name));
        lemma_last_assignment_is_known(stmts, i, name);
        lemma_constant_resolves(resolver, name, ValueView::Sequence(values));
    }
}

// ---------------------------------------------------------------------------------------------
// Enclosing classes
// ---------------------------------------------------------------------------------------------
/// Inside a class, a name stands for the member of the class first.
pub proof fn lemma_enclosing_class_comes_first(
    resolver: ResolverView,
    stmts: Seq<StmtView>,
    j: int,
    class: Seq<char>,
    i: int,
    member: Seq<char>,
    value: ValueView,
)
    requires
        resolver.loaded(resolver.current_path) == Some(module_of(stmts)),
        is_last_class(stmts, j, class),
        stmts[j]->ClassDef_0.bases is None,
        has_member(stmts[j]->ClassDef_0, i, member, value),
    ensures
        resolver.resolution(Some(class), ExprView::Name(member)) == Ok::<
            Option<ResolvedView>,
            Seq<Seq<char>>,
        >(Some(ResolvedView { value, source_path: seq![member], is_enum_member: false })),
{
    let def = stmts[j]->ClassDef_0;
    let current = resolver.current_path;
    let scope = scope_of(stmts);
    let context = ContextView {
        resolver: Some(resolver),
        enclosing_class: None,
        style: ParamIdStyle::RuntimeValue,
    };
    lemma_class_is_in_scope(stmts, j, class);
    lemma_literals_keep_their_values(assigned(def.body[i]), value, context);
    lemma_last_assignment_is_known(def.body, i, member);
    lemma_enum_by_name(def);
    assert(class_member(scope, class, member, scope.children.len()) == Some(value));
    assert(!is_enum_class(scope, class, scope.children.len()));
    assert(enum_definer(scope, class, member, scope.children.len()) is None);
    let bound = class_bound(resolver.modules);
    assert(resolver.member(current, class, member, 0, bound) == LookupView::Found(value, false));
    assert(resolver.at_name(current, Some(class), member, 0) == LookupView::Found(value, false));
    assert(seq![member][0] == member);
    assert(resolver.at_path(current, Some(class), seq![member], 0) == LookupView::Found(
        value,
        false,
    ));
}

// ---------------------------------------------------------------------------------------------
// Sequences that are looked up once
// ---------------------------------------------------------------------------------------------
/// A constant that is put into a scope, or into a class in it, is found there by its name, and no
/// other constant there changes.
pub proof fn lemma_constant_is_put(
    scope: ScopeView,
    class: Seq<char>,
    name: Seq<char>,
    value: ValueView,
    other: Seq<char>,
)
    ensures
        entry(with_constant_at(scope, seq![], name, value).constants, other) == if other == name {
            Some(value)
        } else {
            entry(scope.constants, other)
        },
        entry(scope.children, class) is Some ==> {
            let after = with_constant_at(scope, seq![class], name, value);
            let child = entry(after.children, class);
            &&& after.constants == scope.constants
            &&& child is Some
            &&& entry(child->0.constants, other) == if other == name {
                Some(value)
            } else {
                entry(entry(scope.children, class)->0.constants, other)
            }
        },
{
    let here = Seq::<Seq<char>>::empty();
    let there = seq![class];
    lemma_entry_after_insert(scope.constants, name, value, other);
    if let Some(child) = entry(scope.children, class) {
        assert(there[0] == class);
        assert(there.drop_first() =~= here);
        lemma_entry_after_insert(child.constants, name, value, other);
        lemma_entry_after_insert(
            scope.children,
            class,
            with_constant_at(child, here, name, value),
            class,
        );
        assert(with_constant_at(scope, there, name, value).children == with_entry(
            scope.children,
            class,
            with_constant_at(child, here, name, value),
        ));
    }
}

/// A list of literals and of names of constants, looked up once when a module is loaded, has the
/// values of these, in order.
pub proof fn lemma_sequence_is_looked_up(
    resolver: ResolverView,
    stmts: Seq<StmtView>,
    elts: Seq<ExprView>,
    values: Seq<ValueView>,
    elements: Seq<PendingView>,
    i: int,
    done: Seq<ValueView>,
)
    requires
        resolver.loaded(resolver.current_path) == Some(module_of(stmts)),
        0 <= i <= elts.len(),
        values.len() == elts.len(),
        forall|k: int| 0 <= k < elts.len() ==> is_worth(stmts, #[trigger] elts[k], values[k]),
        elements.len() == elts.len(),
        forall|k: int|
            0 <= k < elts.len() ==> #[trigger] elements[k] == if elts[k] is Name {
                PendingView::Path(seq![elts[k]->Name_0])
            } else {
                PendingView::Literal(values[k])
            },
    ensures
        resolver.fresh_sequence_from(resolver.current_path, elements, i, done)
            == LookupView::Found(ValueView::Sequence(done + values.skip(i)), false),
    decreases elts.len() - i,
{
    let current = resolver.current_path;
    let context = ContextView {
        resolver: Some(resolver),
        enclosing_class: None,
        style: ParamIdStyle::RuntimeValue,
    };
    if i < elts.len() {
        let e = elts[i];
        assert(is_worth(stmts, e, values[i]));
        assert(elements[i] == if e is Name {
            PendingView::Path(seq![e->Name_0])
        } else {
            PendingView::Literal(values[i])
        });
        if e is Name {
            let x = e->Name_0;
            let m = choose|m: int| #[trigger]
                is_last_assignment(stmts, m, x) && denotes(assigned(stmts[m]), values[i]);
            lemma_literals_keep_their_values(assigned(stmts[m]), values[i], context);
            lemma_last_assignment_is_known(stmts, m, x);
            assert(seq![x][0] == x);
            assert(resolver.at_name(current, None, x, 0) == LookupView::Found(values[i], false));
            assert(resolver.at_path(current, None, seq![x], 0) == LookupView::Found(
                values[i],
                false,
            ));
        }
        lemma_sequence_is_looked_up(
            resolver,
            stmts,
            elts,
            values,
            elements,
            i + 1,
            done.push(values[i]),
        );
        assert(done.push(values[i]) + values.skip(i + 1) =~= done + values.skip(i));
    } else {
        assert(done + values.skip(i) =~= done);
    }
}

// ---------------------------------------------------------------------------------------------
// Base classes of other modules
// ---------------------------------------------------------------------------------------------
/// A class that does not assign a member has that of its only base class, where this is imported
/// from another module.
pub proof fn lemma_member_of_imported_base(
    resolver: ResolverView,
    stmts: Seq<StmtView>,
    j: int,
    class: Seq<char>,
    i: int,
    k: int,
    base: Seq<char>,
    target: Seq<Seq<char>>,
    original: Seq<char>,
    others: Seq<StmtView>,
    b: int,
    m: int,
    member: Seq<char>,
    value: ValueView,
    fuel: nat,
)
    requires
        resolver.loaded(resolver.current_path) == Some(module_of(stmts)),
        resolver.loaded(target) == Some(module_of(others)),
        is_last_class(stmts, j, class),
        stmts[j]->ClassDef_0.bases is Some,
        stmts[j]->ClassDef_0.bases->0.len() == 1,
        stmts[j]->ClassDef_0.bases->0[0] == ExprView::Name(base),
        !names_enum(base),
        forall|x: int| 0 <= x < stmts.len() ==> !is_class(#[trigger] stmts[x], base),
        forall|x: int|
            0 <= x < stmts[j]->ClassDef_0.body.len() ==> !assigns(
                #[trigger] stmts[j]->ClassDef_0.body[x],
                member,
            ),
        is_imported_from(stmts, resolver.current_path, i, k, base, target, original),
        is_last_class(others, b, original),
        others[b]->ClassDef_0.bases is None,
        has_member(others[b]->ClassDef_0, m, member, value),
        fuel > 0,
    ensures
        resolver.member(resolver.current_path, class, member, 0, fuel) == LookupView::Found(
            value,
            false,
        ),
{
    let current = resolver.current_path;
    let scope = scope_of(stmts);
    let def = stmts[j]->ClassDef_0;
    let base_def = others[b]->ClassDef_0;
    let there = scope_of(others);
    let context = ContextView {
        resolver: Some(resolver),
        enclosing_class: None,
        style: ParamIdStyle::RuntimeValue,
    };
    lemma_class_is_in_scope(stmts, j, class);
    lemma_class_is_in_scope(stmts, -1, base);
    lemma_class_is_in_scope(others, b, original);
    lemma_import_leads(stmts, current, i, k, base, target, original);
    lemma_literals_keep_their_values(assigned(base_def.body[m]), value, context);
    lemma_last_assignment_is_known(base_def.body, m, member);
    lemma_unassigned_name(def.body, member);
    lemma_enum_by_name(base_def);
    let exprs = base_exprs(def);
    assert(exprs.drop_last() =~= Seq::<ExprView>::empty());
    assert(simple_bases(exprs.drop_last()) =~= Seq::<Seq<char>>::empty());
    assert(simple_bases(exprs) =~= seq![base]);
    let levels = scope.children.len();
    lemma_place_from(keys(scope.children), class, 0);
    let bases = seq![base];
    assert(bases[0] == base);
    let less = (levels - 1) as nat;
    assert(class_member(scope, base, member, less) is None);
    assert(member_of_bases(scope, bases, 1, member, less) is None);
    assert(member_of_bases(scope, bases, 0, member, less) is None);
    assert(class_member(scope, class, member, levels) is None);
    assert(class_member(there, original, member, there.children.len()) == Some(value));
    assert(!is_enum_class(there, original, there.children.len()));
    assert(enum_definer(there, original, member, there.children.len()) is None);
    let rest = (fuel - 1) as nat;
    assert(resolver.member(target, original, member, 1, rest) == LookupView::Found(value, false));
    assert(resolver.member_of_imported(
        current,
        module_of(stmts).imports,
        bases,
        0,
        member,
        0,
        rest,
    ) == LookupView::Found(value, false));
}

/// The modules of `pytest` and `rtest`, and those of the standard library, are never looked into.
pub proof fn lemma_modules_that_are_skipped(name: Seq<char>, rest: Seq<Seq<char>>)
    ensures
        is_skipped(seq!["pytest"@] + rest),
        is_skipped(seq!["rtest"@] + rest),
        is_skipped(seq![name] + rest) <==> name == "pytest"@ || name == "rtest"@
            || in_standard_library(11, name),
        !is_skipped(seq![]),
{
    assert((seq!["pytest"@] + rest)[0] == "pytest"@);
    assert((seq!["rtest"@] + rest)[0] == "rtest"@);
    assert((seq![name] + rest)[0] == name);
}

/// A class that inherits from an enum of the module is an enum.
pub proof fn lemma_enum_is_inherited(
    stmts: Seq<StmtView>,
    j: int,
    class: Seq<char>,
    b: int,
    base: Seq<char>,
)
    requires
        is_last_class(stmts, j, class),
        is_last_class(stmts, b, base),
        stmts[j]->ClassDef_0.bases is Some,
        stmts[j]->ClassDef_0.bases->0.len() == 1,
        stmts[j]->ClassDef_0.bases->0[0] == ExprView::Name(base),
        !names_enum(base),
        is_enum_by_name(stmts[b]->ClassDef_0),
    ensures
        is_enum_class(scope_of(stmts), class, scope_of(stmts).children.len()),
{
    let scope = scope_of(stmts);
    lemma_class_is_in_scope(stmts, j, class);
    lemma_class_is_in_scope(stmts, b, base);
    lemma_enum_by_name(stmts[b]->ClassDef_0);
    let exprs = base_exprs(stmts[j]->ClassDef_0);
    assert(exprs.drop_last() =~= Seq::<ExprView>::empty());
    assert(simple_bases(exprs.drop_last()) =~= Seq::<Seq<char>>::empty());
    assert(simple_bases(exprs) =~= seq![base]);
    lemma_place_from(keys(scope.children), class, 0);
    let less = (scope.children.len() - 1) as nat;
    assert(seq![base][0] == base);
    assert(is_enum_class(scope, base, less));
    assert(any_enum_base(scope, seq![base], 0, less));
}

/// What is looked up of pending sequences is put into the modules, one after another: each into the
/// scope or class where it is pending, under its name.
pub proof fn lemma_updates_are_made(
    modules: Seq<KnownView>,
    updates: Seq<UpdateView>,
    i: int,
)
    requires
        0 <= i <= updates.len(),
    ensures
        i < updates.len() ==> with_updates(modules, updates, i) == with_updates(
            with_update(modules, updates[i]),
            updates,
            i + 1,
        ),
        i == updates.len() ==> with_updates(modules, updates, i) == modules,
        i < updates.len() && updates[i].module < modules.len()
            && modules[updates[i].module as int].loaded is Some ==> {
            let at = updates[i].module as int;
            let after = with_update(modules, updates[i]);
            &&& after.len() == modules.len()
            &&& after[at].path == modules[at].path
            &&& after[at].loaded is Some
            &&& after[at].loaded->0.imports == modules[at].loaded->0.imports
            &&& after[at].loaded->0.scope == with_constant_at(
                modules[at].loaded->0.scope,
                updates[i].class_path,
                updates[i].name,
                updates[i].value,
            )
            &&& forall|k: int| 0 <= k < modules.len() && k != at ==> after[k] == modules[k]
        },
{
}

/// A pending sequence of a scope that has no constant of its name is put there once all its elements
/// are known; one whose elements are not all known is left.
pub proof fn lemma_pending_gives_update(
    resolver: ResolverView,
    module: nat,
    path: Seq<Seq<char>>,
    class_path: Seq<Seq<char>>,
    scope: ScopeView,
    i: int,
    done: Seq<UpdateView>,
    value: ValueView,
)
    requires
        0 <= i < scope.pending.len(),
        entry(scope.constants, scope.pending[i].0) is None,
    ensures
        resolver.fresh_sequence_from(path, scope.pending[i].1, 0, seq![]) == LookupView::Found(
            value,
            false,
        ) ==> resolver.scope_updates(module, path, class_path, scope, i, done)
            == resolver.scope_updates(
            module,
            path,
            class_path,
            scope,
            i + 1,
            done.push(
                UpdateView { module, class_path, name: scope.pending[i].0, value },
            ),
        ),
        resolver.fresh_sequence_from(path, scope.pending[i].1, 0, seq![]) is Missing
            ==> resolver.scope_updates(module, path, class_path, scope, i, done)
            == resolver.scope_updates(module, path, class_path, scope, i + 1, done),
{
}

} // verus!
