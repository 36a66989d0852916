//! Lookups of class members go up to the roots of a hierarchy: the bound on the levels never decides
//! where no class inherits from itself.

use crate::python_discovery::constant_resolver::{
    class_bound, class_total, deeper, known_from, KnownView, ModuleView, ResolverView,
};
use crate::python_discovery::constants::{
    any_enum_base, class_member, enum_definer, enum_definer_of_bases, is_enum_class,
    member_of_bases, names_enum, ScopeView,
};
use crate::python_discovery::module_resolver::absolute_import;
use crate::table::{entry, keys, lemma_place_from, place};
use vstd::prelude::*;

verus! {

/// Each class ranks above the classes that it inherits from, so that none inherits from itself.
pub open spec fn is_ranked(scope: ScopeView, rank: spec_fn(Seq<char>) -> nat) -> bool {
    forall|class: Seq<char>, b: int|
        #![trigger entry(scope.children, class)->0.bases[b]]
        entry(scope.children, class) is Some && 0 <= b < entry(scope.children, class)->0.bases.len()
            && !names_enum(entry(scope.children, class)->0.bases[b]) ==> rank(
            entry(scope.children, class)->0.bases[b],
        ) < rank(class)
}

/// The classes on the way up are different ones of the scope, and rank above the present one.
spec fn is_way_to(
    scope: ScopeView,
    rank: spec_fn(Seq<char>) -> nat,
    way: Seq<Seq<char>>,
    class: Seq<char>,
) -> bool {
    &&& way.no_duplicates()
    &&& forall|i: int|
        0 <= i < way.len() ==> keys(scope.children).contains(#[trigger] way[i]) && rank(way[i])
            > rank(class)
}

proof fn lemma_known_is_key(scope: ScopeView, class: Seq<char>)
    requires
        entry(scope.children, class) is Some,
    ensures
        keys(scope.children).contains(class),
{
    lemma_place_from(keys(scope.children), class, 0);
    assert(keys(scope.children)[place(keys(scope.children), class)] == class);
}

proof fn lemma_way_is_short(names: Seq<Seq<char>>, way: Seq<Seq<char>>)
    requires
        way.no_duplicates(),
        forall|i: int| 0 <= i < way.len() ==> names.contains(#[trigger] way[i]),
    ensures
        way.len() <= names.len(),
{
    way.unique_seq_to_set();
    names.lemma_cardinality_of_set();
    vstd::seq_lib::seq_to_set_is_finite(names);
    assert forall|x: Seq<char>| way.to_set().contains(x) implies names.to_set().contains(x) by {
        let i = choose|i: int| 0 <= i < way.len() && way[i] == x;
        assert(names.contains(way[i]));
    }
    vstd::set_lib::lemma_len_subset(way.to_set(), names.to_set());
}

/// The way with the present class on it is a way to each of its base classes.
proof fn lemma_way_up(
    scope: ScopeView,
    rank: spec_fn(Seq<char>) -> nat,
    way: Seq<Seq<char>>,
    class: Seq<char>,
)
    requires
        is_ranked(scope, rank),
        is_way_to(scope, rank, way, class),
        entry(scope.children, class) is Some,
    ensures
        way.len() < scope.children.len(),
        forall|b: int|
            0 <= b < entry(scope.children, class)->0.bases.len() && !names_enum(
                entry(scope.children, class)->0.bases[b],
            ) ==> is_way_to(
                scope,
                rank,
                way.push(class),
                #[trigger] entry(scope.children, class)->0.bases[b],
            ),
{
    let more = way.push(class);
    let bases = entry(scope.children, class)->0.bases;
    lemma_known_is_key(scope, class);
    assert forall|i: int, j: int| 0 <= i < j < more.len() implies more[i] != more[j] by {
        if j == way.len() {
            assert(more[i] == way[i]);
            assert(rank(way[i]) > rank(class));
        }
    }
    assert forall|i: int| 0 <= i < more.len() implies keys(scope.children).contains(
        #[trigger] more[i],
    ) by {
        if i < way.len() {
            assert(more[i] == way[i]);
        }
    }
    lemma_way_is_short(keys(scope.children), more);
    assert forall|b: int| 0 <= b < bases.len() && !names_enum(bases[b]) implies is_way_to(
        scope,
        rank,
        more,
        #[trigger] bases[b],
    ) by {
        assert(rank(bases[b]) < rank(class));
        assert forall|i: int| 0 <= i < more.len() implies keys(scope.children).contains(
            #[trigger] more[i],
        ) && rank(more[i]) > rank(bases[b]) by {
            if i < way.len() {
                assert(more[i] == way[i]);
            }
        }
    }
}

proof fn lemma_member(
    scope: ScopeView,
    rank: spec_fn(Seq<char>) -> nat,
    way: Seq<Seq<char>>,
    class: Seq<char>,
    member: Seq<char>,
    f: nat,
    g: nat,
)
    requires
        is_ranked(scope, rank),
        is_way_to(scope, rank, way, class),
        f + way.len() >= scope.children.len(),
        g + way.len() >= scope.children.len(),
    ensures
        class_member(scope, class, member, f) == class_member(scope, class, member, g),
    decreases f, 0int, 0int,
{
    if let Some(found) = entry(scope.children, class) {
        lemma_way_up(scope, rank, way, class);
        lemma_member_of_bases(
            scope,
            rank,
            way.push(class),
            found.bases,
            0,
            member,
            (f - 1) as nat,
            (g - 1) as nat,
        );
    }
}

proof fn lemma_member_of_bases(
    scope: ScopeView,
    rank: spec_fn(Seq<char>) -> nat,
    way: Seq<Seq<char>>,
    bases: Seq<Seq<char>>,
    i: int,
    member: Seq<char>,
    f: nat,
    g: nat,
)
    requires
        0 <= i,
        is_ranked(scope, rank),
        forall|b: int|
            0 <= b < bases.len() && !names_enum(bases[b]) ==> is_way_to(
                scope,
                rank,
                way,
                #[trigger] bases[b],
            ),
        f + way.len() >= scope.children.len(),
        g + way.len() >= scope.children.len(),
    ensures
        member_of_bases(scope, bases, i, member, f) == member_of_bases(scope, bases, i, member, g),
    decreases f, 1int, bases.len() - i,
{
    if i < bases.len() {
        lemma_member_of_bases(scope, rank, way, bases, i + 1, member, f, g);
        if !names_enum(bases[i]) {
            lemma_member(scope, rank, way, bases[i], member, f, g);
        }
    }
}

proof fn lemma_enum(
    scope: ScopeView,
    rank: spec_fn(Seq<char>) -> nat,
    way: Seq<Seq<char>>,
    class: Seq<char>,
    f: nat,
    g: nat,
)
    requires
        is_ranked(scope, rank),
        is_way_to(scope, rank, way, class),
        f + way.len() >= scope.children.len(),
        g + way.len() >= scope.children.len(),
    ensures
        is_enum_class(scope, class, f) == is_enum_class(scope, class, g),
    decreases f, 0int, 0int,
{
    if let Some(found) = entry(scope.children, class) {
        lemma_way_up(scope, rank, way, class);
        lemma_enum_of_bases(
            scope,
            rank,
            way.push(class),
            found.bases,
            0,
            (f - 1) as nat,
            (g - 1) as nat,
        );
    }
}

proof fn lemma_enum_of_bases(
    scope: ScopeView,
    rank: spec_fn(Seq<char>) -> nat,
    way: Seq<Seq<char>>,
    bases: Seq<Seq<char>>,
    i: int,
    f: nat,
    g: nat,
)
    requires
        0 <= i,
        is_ranked(scope, rank),
        forall|b: int|
            0 <= b < bases.len() && !names_enum(bases[b]) ==> is_way_to(
                scope,
                rank,
                way,
                #[trigger] bases[b],
            ),
        f + way.len() >= scope.children.len(),
        g + way.len() >= scope.children.len(),
    ensures
        any_enum_base(scope, bases, i, f) == any_enum_base(scope, bases, i, g),
    decreases f, 1int, bases.len() - i,
{
    if i < bases.len() {
        lemma_enum_of_bases(scope, rank, way, bases, i + 1, f, g);
        if !names_enum(bases[i]) {
            lemma_enum(scope, rank, way, bases[i], f, g);
        }
    }
}

proof fn lemma_definer(
    scope: ScopeView,
    rank: spec_fn(Seq<char>) -> nat,
    way: Seq<Seq<char>>,
    class: Seq<char>,
    member: Seq<char>,
    f: nat,
    g: nat,
)
    requires
        is_ranked(scope, rank),
        is_way_to(scope, rank, way, class),
        f + way.len() >= scope.children.len(),
        g + way.len() >= scope.children.len(),
    ensures
        enum_definer(scope, class, member, f) == enum_definer(scope, class, member, g),
    decreases f, 0int, 0int,
{
    if let Some(found) = entry(scope.children, class) {
        lemma_way_up(scope, rank, way, class);
        lemma_definer_of_bases(
            scope,
            rank,
            way.push(class),
            found.bases,
            0,
            member,
            (f - 1) as nat,
            (g - 1) as nat,
        );
    }
}

proof fn lemma_definer_of_bases(
    scope: ScopeView,
    rank: spec_fn(Seq<char>) -> nat,
    way: Seq<Seq<char>>,
    bases: Seq<Seq<char>>,
    i: int,
    member: Seq<char>,
    f: nat,
    g: nat,
)
    requires
        0 <= i,
        is_ranked(scope, rank),
        forall|b: int|
            0 <= b < bases.len() && !names_enum(bases[b]) ==> is_way_to(
                scope,
                rank,
                way,
                #[trigger] bases[b],
            ),
        f + way.len() >= scope.children.len(),
        g + way.len() >= scope.children.len(),
    ensures
        enum_definer_of_bases(scope, bases, i, member, f) == enum_definer_of_bases(
            scope,
            bases,
            i,
            member,
            g,
        ),
    decreases f, 1int, bases.len() - i,
{
    if i < bases.len() {
        lemma_definer_of_bases(scope, rank, way, bases, i + 1, member, f, g);
        if !names_enum(bases[i]) {
            lemma_definer(scope, rank, way, bases[i], member, f, g);
        }
    }
}

/// Where no class of a scope inherits from itself, lookups go up to the roots: more levels than a
/// scope has classes find the same member, the same enum and the same defining class.
pub proof fn lemma_lookups_reach_the_roots(
    scope: ScopeView,
    rank: spec_fn(Seq<char>) -> nat,
    class: Seq<char>,
    member: Seq<char>,
    more: nat,
)
    requires
        is_ranked(scope, rank),
    ensures
        class_member(scope, class, member, scope.children.len()) == class_member(
            scope,
            class,
            member,
            scope.children.len() + more,
        ),
        is_enum_class(scope, class, scope.children.len()) == is_enum_class(
            scope,
            class,
            scope.children.len() + more,
        ),
        enum_definer(scope, class, member, scope.children.len()) == enum_definer(
            scope,
            class,
            member,
            scope.children.len() + more,
        ),
{
    let n = scope.children.len();
    let way = Seq::<Seq<char>>::empty();
    assert(is_way_to(scope, rank, way, class));
    lemma_member(scope, rank, way, class, member, n, n + more);
    lemma_enum(scope, rank, way, class, n, n + more);
    lemma_definer(scope, rank, way, class, member, n, n + more);
}

// ---------------------------------------------------------------------------------------------
// Across modules
// ---------------------------------------------------------------------------------------------
/// A class of a module.
pub type ModuleClass = (Seq<Seq<char>>, Seq<char>);

/// The class of another module that a base of a class names, if it names one.
pub open spec fn imported_base(module: ModuleView, path: Seq<Seq<char>>, base: Seq<char>) -> Option<
    ModuleClass,
> {
    if names_enum(base) {
        None
    } else {
        match entry(module.imports, base) {
            None => None,
            Some(import) => match absolute_import(path, import.relative_level, import.mod_path) {
                Some(target) if import.imported_name.len() > 0 => Some(
                    (target, import.imported_name),
                ),
                _ => None,
            },
        }
    }
}

/// The resolver knows the class.
pub open spec fn knows_class(r: ResolverView, key: ModuleClass) -> bool {
    r.loaded(key.0) is Some && entry(r.loaded(key.0)->0.scope.children, key.1) is Some
}

/// The bases of a class that the resolver knows.
pub open spec fn bases_of(r: ResolverView, key: ModuleClass) -> Seq<Seq<char>> {
    entry(r.loaded(key.0)->0.scope.children, key.1)->0.bases
}

/// Each class ranks above the classes that it inherits from in other modules.
pub open spec fn is_ranked_across(r: ResolverView, rank: spec_fn(ModuleClass) -> nat) -> bool {
    forall|key: ModuleClass, b: int|
        #![trigger bases_of(r, key)[b]]
        knows_class(r, key) && 0 <= b < bases_of(r, key).len() ==> (imported_base(
            r.loaded(key.0)->0,
            key.0,
            bases_of(r, key)[b],
        ) matches Some(base) ==> rank(base) < rank(key))
}

/// A key for each class at the top levels of the modules.
pub open spec fn module_classes(modules: Seq<KnownView>) -> Seq<ModuleClass>
    decreases modules.len(),
{
    if modules.len() == 0 {
        seq![]
    } else {
        let last = modules.last();
        module_classes(modules.drop_last()) + match last.loaded {
            Some(module) => Seq::new(
                module.scope.children.len(),
                |i: int| (last.path, module.scope.children[i].0),
            ),
            None => seq![],
        }
    }
}

proof fn lemma_class_count(modules: Seq<KnownView>)
    ensures
        module_classes(modules).len() == class_total(modules),
    decreases modules.len(),
{
    if modules.len() > 0 {
        lemma_class_count(modules.drop_last());
    }
}

proof fn lemma_class_is_listed(modules: Seq<KnownView>, m: int, i: int)
    requires
        0 <= m < modules.len(),
        modules[m].loaded is Some,
        0 <= i < modules[m].loaded->0.scope.children.len(),
    ensures
        module_classes(modules).contains(
            (modules[m].path, modules[m].loaded->0.scope.children[i].0),
        ),
    decreases modules.len(),
{
    let key = (modules[m].path, modules[m].loaded->0.scope.children[i].0);
    let front = module_classes(modules.drop_last());
    let all = module_classes(modules);
    if m < modules.len() - 1 {
        lemma_class_is_listed(modules.drop_last(), m, i);
        let k = choose|k: int| 0 <= k < front.len() && front[k] == key;
        assert(all[k] == key);
    } else {
        assert(all[front.len() + i] == key);
    }
}

proof fn lemma_known_has_place(modules: Seq<KnownView>, path: Seq<Seq<char>>, i: int) -> (m: int)
    requires
        0 <= i,
        known_from(modules, path, i) is Some,
    ensures
        i <= m < modules.len(),
        modules[m].path == path,
        known_from(modules, path, i) == Some(modules[m]),
    decreases modules.len() - i,
{
    if modules[i].path == path {
        i
    } else {
        lemma_known_has_place(modules, path, i + 1)
    }
}

proof fn lemma_known_class_is_listed(r: ResolverView, key: ModuleClass)
    requires
        knows_class(r, key),
    ensures
        module_classes(r.modules).contains(key),
{
    let m = lemma_known_has_place(r.modules, key.0, 0);
    let children = r.modules[m].loaded->0.scope.children;
    lemma_place_from(keys(children), key.1, 0);
    let i = place(keys(children), key.1);
    assert(children[i].0 == key.1);
    lemma_class_is_listed(r.modules, m, i);
}

/// The classes on the way are different ones that the resolver knows, and rank above the present
/// one.
spec fn is_way_across(
    r: ResolverView,
    rank: spec_fn(ModuleClass) -> nat,
    way: Seq<ModuleClass>,
    key: ModuleClass,
) -> bool {
    &&& way.no_duplicates()
    &&& forall|i: int|
        0 <= i < way.len() ==> module_classes(r.modules).contains(#[trigger] way[i]) && rank(way[i])
            > rank(key)
}

proof fn lemma_way_across_is_short(all: Seq<ModuleClass>, way: Seq<ModuleClass>)
    requires
        way.no_duplicates(),
        forall|i: int| 0 <= i < way.len() ==> all.contains(#[trigger] way[i]),
    ensures
        way.len() <= all.len(),
{
    way.unique_seq_to_set();
    all.lemma_cardinality_of_set();
    vstd::seq_lib::seq_to_set_is_finite(all);
    assert forall|x: ModuleClass| way.to_set().contains(x) implies all.to_set().contains(x) by {
        let i = choose|i: int| 0 <= i < way.len() && way[i] == x;
        assert(all.contains(way[i]));
    }
    vstd::set_lib::lemma_len_subset(way.to_set(), all.to_set());
}

proof fn lemma_way_across(
    r: ResolverView,
    rank: spec_fn(ModuleClass) -> nat,
    way: Seq<ModuleClass>,
    key: ModuleClass,
)
    requires
        is_ranked_across(r, rank),
        is_way_across(r, rank, way, key),
        knows_class(r, key),
    ensures
        way.len() < class_total(r.modules),
        forall|b: int|
            0 <= b < bases_of(r, key).len() ==> (imported_base(
                r.loaded(key.0)->0,
                key.0,
                #[trigger] bases_of(r, key)[b],
            ) matches Some(base) ==> is_way_across(r, rank, way.push(key), base)),
{
    let more = way.push(key);
    let all = module_classes(r.modules);
    lemma_class_count(r.modules);
    lemma_known_class_is_listed(r, key);
    assert forall|i: int, j: int| 0 <= i < j < more.len() implies more[i] != more[j] by {
        if j == way.len() {
            assert(more[i] == way[i]);
            assert(rank(way[i]) > rank(key));
        }
    }
    assert forall|i: int| 0 <= i < more.len() implies all.contains(#[trigger] more[i]) by {
        if i < way.len() {
            assert(more[i] == way[i]);
        }
    }
    lemma_way_across_is_short(all, more);
    assert forall|b: int| 0 <= b < bases_of(r, key).len() implies (imported_base(
        r.loaded(key.0)->0,
        key.0,
        #[trigger] bases_of(r, key)[b],
    ) matches Some(base) ==> is_way_across(r, rank, more, base)) by {
        if let Some(base) = imported_base(r.loaded(key.0)->0, key.0, bases_of(r, key)[b]) {
            assert(rank(base) < rank(key));
            assert forall|i: int| 0 <= i < more.len() implies all.contains(#[trigger] more[i])
                && rank(more[i]) > rank(base) by {
                if i < way.len() {
                    assert(more[i] == way[i]);
                }
            }
        }
    }
}

proof fn lemma_member_across(
    r: ResolverView,
    rank: spec_fn(ModuleClass) -> nat,
    way: Seq<ModuleClass>,
    key: ModuleClass,
    member: Seq<char>,
    depth: nat,
    f: nat,
    g: nat,
)
    requires
        is_ranked_across(r, rank),
        is_way_across(r, rank, way, key),
        f + way.len() >= class_total(r.modules),
        g + way.len() >= class_total(r.modules),
    ensures
        r.member(key.0, key.1, member, depth, f) == r.member(key.0, key.1, member, depth, g),
    decreases f, 0int, 0int,
{
    if knows_class(r, key) {
        let module = r.loaded(key.0)->0;
        lemma_way_across(r, rank, way, key);
        lemma_member_of_imported(
            r,
            rank,
            way.push(key),
            module,
            key.0,
            bases_of(r, key),
            0,
            member,
            depth,
            (f - 1) as nat,
            (g - 1) as nat,
        );
    }
}

proof fn lemma_member_of_imported(
    r: ResolverView,
    rank: spec_fn(ModuleClass) -> nat,
    way: Seq<ModuleClass>,
    module: ModuleView,
    path: Seq<Seq<char>>,
    bases: Seq<Seq<char>>,
    i: int,
    member: Seq<char>,
    depth: nat,
    f: nat,
    g: nat,
)
    requires
        0 <= i,
        is_ranked_across(r, rank),
        forall|b: int|
            0 <= b < bases.len() ==> (imported_base(module, path, #[trigger] bases[b]) matches Some(
                base,
            ) ==> is_way_across(r, rank, way, base)),
        f + way.len() >= class_total(r.modules),
        g + way.len() >= class_total(r.modules),
    ensures
        r.member_of_imported(path, module.imports, bases, i, member, depth, f)
            == r.member_of_imported(path, module.imports, bases, i, member, depth, g),
    decreases f, 1int, bases.len() - i,
{
    if i < bases.len() {
        lemma_member_of_imported(r, rank, way, module, path, bases, i + 1, member, depth, f, g);
        if let Some(base) = imported_base(module, path, bases[i]) {
            lemma_member_across(r, rank, way, base, member, deeper(depth), f, g);
        }
    }
}

/// Where no class inherits from itself across modules, lookups of members go up to the roots: more
/// levels than the modules have classes find the same, as long as the classes can be counted.
pub proof fn lemma_lookups_reach_other_modules(
    r: ResolverView,
    rank: spec_fn(ModuleClass) -> nat,
    path: Seq<Seq<char>>,
    class: Seq<char>,
    member: Seq<char>,
    depth: nat,
    more: nat,
)
    requires
        is_ranked_across(r, rank),
        class_total(r.modules) <= usize::MAX,
    ensures
        r.member(path, class, member, depth, class_bound(r.modules)) == r.member(
            path,
            class,
            member,
            depth,
            class_bound(r.modules) + more,
        ),
{
    let n = class_bound(r.modules);
    let way = Seq::<ModuleClass>::empty();
    assert(is_way_across(r, rank, way, (path, class)));
    lemma_member_across(r, rank, way, (path, class), member, depth, n, n + more);
}

} // verus!
