//! Inheritance is followed to the end: the bound on the levels that a pass looks into never decides.

use crate::python_discovery::constant_resolver::{BindingView, ResolverView};
use crate::python_discovery::discovery::{ConfigView, MethodView};
use crate::python_discovery::module_resolver::{load_from, LoadView};
use crate::python_discovery::semantic_analyzer::{
    class_info, class_infos_from, imports_from, is_stdlib_path, last_named, loaded_from,
    statement_total, BaseView, ClassInfoView, ClassKey, LoadedView, PassView, TablesView,
};
use crate::python_discovery::syntax::StmtView;
use crate::python_discovery::visitor::local_resolver;
use vstd::prelude::*;

verus! {

/// The name of the class that a statement defines, or nothing.
pub open spec fn defined_name(stmt: StmtView) -> Seq<char> {
    match stmt {
        StmtView::ClassDef(class) => class.name,
        _ => seq![],
    }
}

/// A key for each statement of the loaded modules.
pub open spec fn load_keys(loads: Seq<LoadView>) -> Seq<ClassKey>
    decreases loads.len(),
{
    if loads.len() == 0 {
        seq![]
    } else {
        let last = loads.last();
        load_keys(loads.drop_last()) + match last.result {
            Ok(stmts) => Seq::new(stmts.len(), |i: int| (last.path, defined_name(stmts[i]))),
            Err(_) => seq![],
        }
    }
}

/// A key for each class that a pass can come to.
pub open spec fn class_keys(pass: PassView, tables: TablesView) -> Seq<ClassKey> {
    load_keys(pass.loads) + Seq::new(
        tables.own.len(),
        |i: int| (tables.own_path, tables.own[i].name),
    )
}

/// The classes have keys in the list.
pub open spec fn have_keys(
    keys: Seq<ClassKey>,
    path: Seq<Seq<char>>,
    classes: Seq<ClassInfoView>,
) -> bool {
    forall|c: int| 0 <= c < classes.len() ==> keys.contains((path, (#[trigger] classes[c]).name))
}

/// All classes of the tables have keys in the list.
pub open spec fn is_covered(keys: Seq<ClassKey>, tables: TablesView) -> bool {
    have_keys(keys, tables.own_path, tables.own) && forall|k: int|
        0 <= k < tables.loaded.len() ==> have_keys(
            keys,
            (#[trigger] tables.loaded[k]).path,
            tables.loaded[k].classes,
        )
}

/// All classes of the loaded modules have keys in the list.
pub open spec fn loads_are_covered(keys: Seq<ClassKey>, loads: Seq<LoadView>) -> bool {
    forall|j: int, i: int|
        #![trigger loads[j], loads[j].result->Ok_0[i]]
        0 <= j < loads.len() && loads[j].result is Ok && 0 <= i < loads[j].result->Ok_0.len()
            ==> keys.contains((loads[j].path, defined_name(loads[j].result->Ok_0[i])))
}

/// The visited classes are different ones and have keys in the list.
pub open spec fn is_trail(keys: Seq<ClassKey>, visited: Seq<ClassKey>) -> bool {
    visited.no_duplicates() && forall|i: int|
        0 <= i < visited.len() ==> keys.contains(#[trigger] visited[i])
}

proof fn lemma_load_keys(loads: Seq<LoadView>, j: int, i: int)
    requires
        0 <= j < loads.len(),
        loads[j].result is Ok,
        0 <= i < loads[j].result->Ok_0.len(),
    ensures
        load_keys(loads).contains((loads[j].path, defined_name(loads[j].result->Ok_0[i]))),
    decreases loads.len(),
{
    let key = (loads[j].path, defined_name(loads[j].result->Ok_0[i]));
    let front = load_keys(loads.drop_last());
    let all = load_keys(loads);
    if j < loads.len() - 1 {
        lemma_load_keys(loads.drop_last(), j, i);
        let k = choose|k: int| 0 <= k < front.len() && front[k] == key;
        assert(all[k] == key);
    } else {
        assert(all[front.len() + i] == key);
    }
}

proof fn lemma_key_count(loads: Seq<LoadView>, own: nat)
    ensures
        load_keys(loads).len() + own == statement_total(loads, own),
    decreases loads.len(),
{
    if loads.len() > 0 {
        lemma_key_count(loads.drop_last(), own);
    }
}

proof fn lemma_trail_is_short(keys: Seq<ClassKey>, visited: Seq<ClassKey>)
    requires
        is_trail(keys, visited),
    ensures
        visited.len() <= keys.len(),
{
    visited.unique_seq_to_set();
    keys.lemma_cardinality_of_set();
    vstd::seq_lib::seq_to_set_is_finite(keys);
    assert(visited.to_set().subset_of(keys.to_set())) by {
        assert forall|x: ClassKey| visited.to_set().contains(x) implies keys.to_set().contains(
            x,
        ) by {
            let i = choose|i: int| 0 <= i < visited.len() && visited[i] == x;
            assert(keys.contains(visited[i]));
        }
    }
    vstd::set_lib::lemma_len_subset(visited.to_set(), keys.to_set());
}

proof fn lemma_trail_grows(keys: Seq<ClassKey>, visited: Seq<ClassKey>, key: ClassKey)
    requires
        is_trail(keys, visited),
        !visited.contains(key),
        keys.contains(key),
    ensures
        is_trail(keys, visited.push(key)),
{
    let more = visited.push(key);
    assert forall|i: int| 0 <= i < more.len() implies keys.contains(#[trigger] more[i]) by {
        if i < visited.len() {
            assert(more[i] == visited[i]);
        }
    }
    assert forall|i: int, j: int| 0 <= i < j < more.len() implies more[i] != more[j] by {
        if j == visited.len() {
            assert(visited[i] == more[i]);
        }
    }
}

proof fn lemma_named_has_key(
    keys: Seq<ClassKey>,
    path: Seq<Seq<char>>,
    classes: Seq<ClassInfoView>,
    name: Seq<char>,
)
    requires
        have_keys(keys, path, classes),
        last_named(classes, name) is Some,
    ensures
        keys.contains((path, name)),
    decreases classes.len(),
{
    if classes.last().name == name {
        assert(classes[classes.len() - 1].name == name);
    } else {
        let front = classes.drop_last();
        assert forall|c: int| 0 <= c < front.len() implies keys.contains(
            (path, (#[trigger] front[c]).name),
        ) by {
            assert(front[c] == classes[c]);
        }
        lemma_named_has_key(keys, path, front, name);
    }
}

proof fn lemma_loaded_have_keys(
    keys: Seq<ClassKey>,
    list: Seq<LoadedView>,
    path: Seq<Seq<char>>,
    i: int,
)
    requires
        0 <= i,
        forall|k: int|
            0 <= k < list.len() ==> have_keys(keys, (#[trigger] list[k]).path, list[k].classes),
        loaded_from(list, path, i) is Some,
    ensures
        have_keys(keys, path, loaded_from(list, path, i)->0),
    decreases list.len() - i,
{
    if list[i].path != path {
        lemma_loaded_have_keys(keys, list, path, i + 1);
    }
}

proof fn lemma_class_has_key(
    keys: Seq<ClassKey>,
    tables: TablesView,
    path: Seq<Seq<char>>,
    name: Seq<char>,
)
    requires
        is_covered(keys, tables),
        tables.class(path, name) is Some,
    ensures
        keys.contains((path, name)),
{
    if let Some(classes) = loaded_from(tables.loaded, path, 0) {
        lemma_loaded_have_keys(keys, tables.loaded, path, 0);
        if last_named(classes, name) is Some {
            lemma_named_has_key(keys, path, classes, name);
        } else {
            lemma_named_has_key(keys, path, tables.own, name);
        }
    } else {
        lemma_named_has_key(keys, path, tables.own, name);
    }
}

proof fn lemma_infos_are_defined(
    config: ConfigView,
    resolver: Option<ResolverView>,
    tests_only: bool,
    stmts: Seq<StmtView>,
    i: int,
    current: Seq<Seq<char>>,
    imports: Seq<(Seq<char>, BindingView)>,
    done: Seq<ClassInfoView>,
    keys: Seq<ClassKey>,
)
    requires
        0 <= i,
        have_keys(keys, current, done),
        forall|k: int|
            0 <= k < stmts.len() ==> keys.contains((current, defined_name(#[trigger] stmts[k]))),
    ensures
        class_infos_from(config, resolver, tests_only, stmts, i, current, imports, done) matches Ok(
            classes,
        ) ==> have_keys(keys, current, classes),
    decreases stmts.len() - i,
{
    if i < stmts.len() {
        match stmts[i] {
            StmtView::ClassDef(class) if !tests_only || config.is_test_class(class.name) => {
                if let Ok(info) = class_info(config, resolver, class, current, imports) {
                    let next = done.push(info);
                    assert(defined_name(stmts[i]) == info.name);
                    assert forall|c: int| 0 <= c < next.len() implies keys.contains(
                        (current, (#[trigger] next[c]).name),
                    ) by {
                        if c < done.len() {
                            assert(next[c] == done[c]);
                        }
                    }
                    lemma_infos_are_defined(
                        config,
                        resolver,
                        tests_only,
                        stmts,
                        i + 1,
                        current,
                        imports,
                        next,
                        keys,
                    );
                }
            },
            _ => {
                lemma_infos_are_defined(
                    config,
                    resolver,
                    tests_only,
                    stmts,
                    i + 1,
                    current,
                    imports,
                    done,
                    keys,
                );
            },
        }
    }
}

proof fn lemma_load_is_covered(
    keys: Seq<ClassKey>,
    loads: Seq<LoadView>,
    path: Seq<Seq<char>>,
    i: int,
)
    requires
        0 <= i,
        loads_are_covered(keys, loads),
        load_from(loads, path, i) matches Some(Ok(_)),
    ensures
        forall|k: int|
            0 <= k < load_from(loads, path, i)->0->Ok_0.len() ==> keys.contains(
                (path, defined_name(#[trigger] load_from(loads, path, i)->0->Ok_0[k])),
            ),
    decreases loads.len() - i,
{
    if loads[i].path == path {
        let stmts = load_from(loads, path, i)->0->Ok_0;
        assert forall|k: int| 0 <= k < stmts.len() implies keys.contains(
            (path, defined_name(#[trigger] stmts[k])),
        ) by {
            assert(loads[i].result->Ok_0[k] == stmts[k]);
        }
    } else {
        lemma_load_is_covered(keys, loads, path, i + 1);
    }
}

proof fn lemma_entering_keeps_cover(
    keys: Seq<ClassKey>,
    pass: PassView,
    tables: TablesView,
    base: BaseView,
)
    requires
        loads_are_covered(keys, pass.loads),
        is_covered(keys, tables),
    ensures
        pass.entered(tables, base) matches Ok(now) ==> is_covered(keys, now),
{
    let path = base.mod_path;
    if !base.is_local && loaded_from(tables.loaded, path, 0) is None {
        match load_from(pass.loads, path, 0) {
            Some(Ok(stmts)) => {
                lemma_load_is_covered(keys, pass.loads, path, 0);
                lemma_infos_are_defined(
                    pass.config,
                    Some(local_resolver(stmts)),
                    false,
                    stmts,
                    0,
                    path,
                    imports_from(stmts, 0, seq![]),
                    seq![],
                    keys,
                );
            },
            _ => {},
        }
        if let Ok(now) = pass.entered(tables, base) {
            assert(now.loaded.drop_last() =~= tables.loaded);
            assert forall|k: int| 0 <= k < now.loaded.len() implies have_keys(
                keys,
                (#[trigger] now.loaded[k]).path,
                now.loaded[k].classes,
            ) by {
                if k < tables.loaded.len() {
                    assert(now.loaded[k] == tables.loaded[k]);
                }
            }
        }
    }
}

proof fn lemma_base_methods(
    keys: Seq<ClassKey>,
    pass: PassView,
    tables: TablesView,
    base: BaseView,
    visited: Seq<ClassKey>,
    f: nat,
    g: nat,
)
    requires
        loads_are_covered(keys, pass.loads),
        is_covered(keys, tables),
        is_trail(keys, visited),
        f + visited.len() > keys.len(),
        g + visited.len() > keys.len(),
    ensures
        pass.base_methods(tables, base, visited, f) == pass.base_methods(
            tables,
            base,
            visited,
            g,
        ),
        pass.base_methods(tables, base, visited, f) matches Ok((now, _)) ==> is_covered(keys, now),
    decreases f, 0int, 0int,
{
    let key = (base.mod_path, base.class_name);
    lemma_trail_is_short(keys, visited);
    if !is_stdlib_path(base.mod_path) && !visited.contains(key) {
        lemma_entering_keeps_cover(keys, pass, tables, base);
        if let Ok(now) = pass.entered(tables, base) {
            if let Some(info) = now.class(base.mod_path, base.class_name) {
                lemma_class_has_key(keys, now, base.mod_path, base.class_name);
                lemma_trail_grows(keys, visited, key);
                lemma_all_methods(
                    keys,
                    pass,
                    now,
                    info.base_classes,
                    0,
                    visited.push(key),
                    seq![],
                    (f - 1) as nat,
                    (g - 1) as nat,
                );
            }
        }
    }
}

proof fn lemma_all_methods(
    keys: Seq<ClassKey>,
    pass: PassView,
    tables: TablesView,
    bases: Seq<BaseView>,
    i: int,
    visited: Seq<ClassKey>,
    done: Seq<MethodView>,
    f: nat,
    g: nat,
)
    requires
        loads_are_covered(keys, pass.loads),
        is_covered(keys, tables),
        is_trail(keys, visited),
        f + visited.len() > keys.len(),
        g + visited.len() > keys.len(),
    ensures
        pass.all_methods(tables, bases, i, visited, done, f) == pass.all_methods(
            tables,
            bases,
            i,
            visited,
            done,
            g,
        ),
        pass.all_methods(tables, bases, i, visited, done, f) matches Ok((now, _)) ==> is_covered(
            keys,
            now,
        ),
    decreases f, 1int, bases.len() - i,
{
    if 0 <= i < bases.len() {
        lemma_base_methods(keys, pass, tables, bases[i], visited, f, g);
        if let Ok((now, found)) = pass.base_methods(tables, bases[i], visited, f) {
            match found {
                Some(methods) => {
                    lemma_all_methods(
                        keys,
                        pass,
                        now,
                        bases,
                        i + 1,
                        visited,
                        done + methods,
                        f,
                        g,
                    );
                },
                None => {
                    lemma_all_methods(keys, pass, now, bases, i + 1, visited, done, f, g);
                },
            }
        }
    }
}

proof fn lemma_base_has_init(
    keys: Seq<ClassKey>,
    pass: PassView,
    tables: TablesView,
    base: BaseView,
    visited: Seq<ClassKey>,
    f: nat,
    g: nat,
)
    requires
        loads_are_covered(keys, pass.loads),
        is_covered(keys, tables),
        is_trail(keys, visited),
        f + visited.len() > keys.len(),
        g + visited.len() > keys.len(),
    ensures
        pass.base_has_init(tables, base, visited, f) == pass.base_has_init(
            tables,
            base,
            visited,
            g,
        ),
        pass.base_has_init(tables, base, visited, f) matches Ok((now, _)) ==> is_covered(
            keys,
            now,
        ),
    decreases f, 0int, 0int,
{
    let key = (base.mod_path, base.class_name);
    lemma_trail_is_short(keys, visited);
    if !is_stdlib_path(base.mod_path) && !visited.contains(key) {
        lemma_entering_keeps_cover(keys, pass, tables, base);
        if let Ok(now) = pass.entered(tables, base) {
            if let Some(info) = now.class(base.mod_path, base.class_name) {
                lemma_class_has_key(keys, now, base.mod_path, base.class_name);
                lemma_trail_grows(keys, visited, key);
                lemma_any_has_init(
                    keys,
                    pass,
                    now,
                    info.base_classes,
                    0,
                    visited.push(key),
                    (f - 1) as nat,
                    (g - 1) as nat,
                );
            }
        }
    }
}

proof fn lemma_any_has_init(
    keys: Seq<ClassKey>,
    pass: PassView,
    tables: TablesView,
    bases: Seq<BaseView>,
    i: int,
    visited: Seq<ClassKey>,
    f: nat,
    g: nat,
)
    requires
        loads_are_covered(keys, pass.loads),
        is_covered(keys, tables),
        is_trail(keys, visited),
        f + visited.len() > keys.len(),
        g + visited.len() > keys.len(),
    ensures
        pass.any_has_init(tables, bases, i, visited, f) == pass.any_has_init(
            tables,
            bases,
            i,
            visited,
            g,
        ),
        pass.any_has_init(tables, bases, i, visited, f) matches Ok((now, _)) ==> is_covered(
            keys,
            now,
        ),
    decreases f, 1int, bases.len() - i,
{
    if 0 <= i < bases.len() {
        lemma_base_has_init(keys, pass, tables, bases[i], visited, f, g);
        if let Ok((now, false)) = pass.base_has_init(tables, bases[i], visited, f) {
            lemma_any_has_init(keys, pass, now, bases, i + 1, visited, f, g);
        }
    }
}

/// Hierarchies are followed to their ends, as long as the statements can be counted: looking into
/// more levels than a pass does would find the same methods, constructors and circles. So a circle
/// is reported only where a class comes back to itself.
pub proof fn lemma_levels_never_decide(
    pass: PassView,
    tables: TablesView,
    base: BaseView,
    more: nat,
)
    requires
        is_covered(class_keys(pass, tables), tables),
        statement_total(pass.loads, tables.own.len()) < usize::MAX,
    ensures
        pass.base_methods(tables, base, seq![], pass.levels(tables)) == pass.base_methods(
            tables,
            base,
            seq![],
            pass.levels(tables) + more,
        ),
        pass.base_has_init(tables, base, seq![], pass.levels(tables)) == pass.base_has_init(
            tables,
            base,
            seq![],
            pass.levels(tables) + more,
        ),
{
    let keys = class_keys(pass, tables);
    let levels = pass.levels(tables);
    lemma_key_count(pass.loads, tables.own.len());
    assert forall|j: int, i: int|
        #![trigger pass.loads[j], pass.loads[j].result->Ok_0[i]]
        0 <= j < pass.loads.len() && pass.loads[j].result is Ok && 0 <= i
            < pass.loads[j].result->Ok_0.len() implies keys.contains(
        (pass.loads[j].path, defined_name(pass.loads[j].result->Ok_0[i])),
    ) by {
        lemma_load_keys(pass.loads, j, i);
        let front = load_keys(pass.loads);
        let key = (pass.loads[j].path, defined_name(pass.loads[j].result->Ok_0[i]));
        let k = choose|k: int| 0 <= k < front.len() && front[k] == key;
        assert(keys[k] == key);
    }
    lemma_base_methods(keys, pass, tables, base, seq![], levels, levels + more);
    lemma_base_has_init(keys, pass, tables, base, seq![], levels, levels + more);
}

/// The tables that a pass starts with are covered.
pub proof fn lemma_first_tables_are_covered(
    pass: PassView,
    own_path: Seq<Seq<char>>,
    own: Seq<ClassInfoView>,
)
    ensures
        ({
            let tables = TablesView { own_path, own, loaded: seq![] };
            is_covered(class_keys(pass, tables), tables)
        }),
{
    let tables = TablesView { own_path, own, loaded: seq![] };
    let keys = class_keys(pass, tables);
    assert forall|c: int| 0 <= c < own.len() implies keys.contains(
        (own_path, (#[trigger] own[c]).name),
    ) by {
        assert(keys[load_keys(pass.loads).len() + c] == (own_path, own[c].name));
    }
}

} // verus!
