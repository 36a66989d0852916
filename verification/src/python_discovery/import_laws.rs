//! What names the imports of a module bind, and to what.

use crate::python_discovery::constant_resolver::{
    bindings_from, from_bindings, from_path, import_bindings, BindingView,
};
use crate::python_discovery::semantic_analyzer::{from_names, imports_from, module_names};
use crate::python_discovery::syntax::{AliasView, StmtView};
use crate::strings::{
    joined, lemma_pieces_are_joined_back, lemma_pieces_hold_no_separator, lemma_pieces_nonempty,
    pieces,
};
use crate::table::{entry, lemma_entry_after_insert, with_entry};
use vstd::prelude::*;

verus! {

/// The names behind `import`.
pub open spec fn aliases_of(stmt: StmtView) -> Seq<AliasView> {
    match stmt {
        StmtView::Import { names } => names,
        StmtView::ImportFrom { names, .. } => names,
        _ => seq![],
    }
}

/// What is imported is called `name`: by the name behind `as`, or by its own where there is none.
pub open spec fn is_called(alias: AliasView, name: Seq<char>) -> bool {
    alias.asname == Some(name) || (alias.asname is None && alias.name == name)
}

/// The statement imports something that is called `name`.
pub open spec fn binds(stmt: StmtView, name: Seq<char>) -> bool {
    exists|k: int|
        0 <= k < aliases_of(stmt).len() && is_called(#[trigger] aliases_of(stmt)[k], name)
}

/// The `k`-th import of the `i`-th statement is the last that is called `name`.
pub open spec fn is_last_import(stmts: Seq<StmtView>, i: int, k: int, name: Seq<char>) -> bool {
    &&& 0 <= i < stmts.len()
    &&& 0 <= k < aliases_of(stmts[i]).len()
    &&& is_called(aliases_of(stmts[i])[k], name)
    &&& forall|j: int|
        k < j < aliases_of(stmts[i]).len() ==> !is_called(#[trigger] aliases_of(stmts[i])[j], name)
    &&& forall|j: int| i < j < stmts.len() ==> !binds(#[trigger] stmts[j], name)
}

/// The names on the path, with dots between them, are the dotted name.
pub open spec fn spells(path: Seq<Seq<char>>, dotted: Seq<char>) -> bool {
    &&& path.len() > 0
    &&& joined(path, seq!['.']) == dotted
    &&& forall|i: int| 0 <= i < path.len() ==> !(#[trigger] path[i]).contains('.')
}

/// The binding leads to what the statement imports by that name: a module, or a name in a module.
pub open spec fn leads_to(binding: BindingView, stmt: StmtView, alias: AliasView) -> bool {
    match stmt {
        StmtView::Import { .. } => {
            &&& spells(binding.mod_path, alias.name)
            &&& binding.imported_name.len() == 0
            &&& binding.relative_level == 0
        },
        StmtView::ImportFrom { module, level, .. } => {
            &&& binding.imported_name == alias.name
            &&& binding.relative_level == level
            &&& match module {
                Some(dotted) => spells(binding.mod_path, dotted),
                None => binding.mod_path.len() == 0,
            }
        },
        _ => false,
    }
}

proof fn lemma_spells(dotted: Seq<char>)
    ensures
        spells(pieces(dotted, '.'), dotted),
{
    lemma_pieces_nonempty(dotted, '.');
    lemma_pieces_hold_no_separator(dotted, '.');
    lemma_pieces_are_joined_back(dotted, '.');
}

// ---------------------------------------------------------------------------------------------
// Base classes
// ---------------------------------------------------------------------------------------------
proof fn lemma_from_names_keep(
    aliases: Seq<AliasView>,
    i: int,
    mod_path: Seq<Seq<char>>,
    level: nat,
    done: Seq<(Seq<char>, BindingView)>,
    name: Seq<char>,
)
    requires
        0 <= i,
        forall|j: int| i <= j < aliases.len() ==> !is_called(#[trigger] aliases[j], name),
    ensures
        entry(from_names(aliases, i, mod_path, level, done), name) == entry(done, name),
    decreases aliases.len() - i,
{
    if i < aliases.len() {
        let local = match aliases[i].asname {
            Some(asname) => asname,
            None => aliases[i].name,
        };
        let binding = BindingView {
            mod_path,
            imported_name: aliases[i].name,
            relative_level: level,
        };
        assert(!is_called(aliases[i], name));
        lemma_entry_after_insert(done, local, binding, name);
        lemma_from_names_keep(
            aliases,
            i + 1,
            mod_path,
            level,
            with_entry(done, local, binding),
            name,
        );
    }
}

proof fn lemma_from_names_bind(
    aliases: Seq<AliasView>,
    i: int,
    mod_path: Seq<Seq<char>>,
    level: nat,
    done: Seq<(Seq<char>, BindingView)>,
    k: int,
    name: Seq<char>,
)
    requires
        0 <= i <= k < aliases.len(),
        is_called(aliases[k], name),
        forall|j: int| k < j < aliases.len() ==> !is_called(#[trigger] aliases[j], name),
    ensures
        entry(from_names(aliases, i, mod_path, level, done), name) == Some(
            BindingView { mod_path, imported_name: aliases[k].name, relative_level: level },
        ),
    decreases aliases.len() - i,
{
    let local = match aliases[i].asname {
        Some(asname) => asname,
        None => aliases[i].name,
    };
    let binding = BindingView { mod_path, imported_name: aliases[i].name, relative_level: level };
    let next = with_entry(done, local, binding);
    if i < k {
        lemma_from_names_bind(aliases, i + 1, mod_path, level, next, k, name);
    } else {
        lemma_entry_after_insert(done, local, binding, name);
        lemma_from_names_keep(aliases, i + 1, mod_path, level, next, name);
    }
}

proof fn lemma_module_names_keep(
    aliases: Seq<AliasView>,
    i: int,
    done: Seq<(Seq<char>, BindingView)>,
    name: Seq<char>,
)
    requires
        0 <= i,
        forall|j: int| i <= j < aliases.len() ==> !is_called(#[trigger] aliases[j], name),
    ensures
        entry(module_names(aliases, i, done), name) == entry(done, name),
    decreases aliases.len() - i,
{
    if i < aliases.len() {
        let local = match aliases[i].asname {
            Some(asname) => asname,
            None => aliases[i].name,
        };
        let binding = BindingView {
            mod_path: pieces(aliases[i].name, '.'),
            imported_name: seq![],
            relative_level: 0,
        };
        assert(!is_called(aliases[i], name));
        lemma_entry_after_insert(done, local, binding, name);
        lemma_module_names_keep(aliases, i + 1, with_entry(done, local, binding), name);
    }
}

proof fn lemma_module_names_bind(
    aliases: Seq<AliasView>,
    i: int,
    done: Seq<(Seq<char>, BindingView)>,
    k: int,
    name: Seq<char>,
)
    requires
        0 <= i <= k < aliases.len(),
        is_called(aliases[k], name),
        forall|j: int| k < j < aliases.len() ==> !is_called(#[trigger] aliases[j], name),
    ensures
        entry(module_names(aliases, i, done), name) == Some(
            BindingView {
                mod_path: pieces(aliases[k].name, '.'),
                imported_name: seq![],
                relative_level: 0,
            },
        ),
    decreases aliases.len() - i,
{
    let local = match aliases[i].asname {
        Some(asname) => asname,
        None => aliases[i].name,
    };
    let binding = BindingView {
        mod_path: pieces(aliases[i].name, '.'),
        imported_name: seq![],
        relative_level: 0,
    };
    let next = with_entry(done, local, binding);
    if i < k {
        lemma_module_names_bind(aliases, i + 1, next, k, name);
    } else {
        lemma_entry_after_insert(done, local, binding, name);
        lemma_module_names_keep(aliases, i + 1, next, name);
    }
}

/// The bindings after one statement.
spec fn after_stmt(stmt: StmtView, done: Seq<(Seq<char>, BindingView)>) -> Seq<
    (Seq<char>, BindingView),
> {
    match stmt {
        StmtView::ImportFrom { module, names, level } => from_names(
            names,
            0,
            from_path(module),
            level as nat,
            done,
        ),
        StmtView::Import { names } => module_names(names, 0, done),
        _ => done,
    }
}

proof fn lemma_imports_keep(
    stmts: Seq<StmtView>,
    i: int,
    done: Seq<(Seq<char>, BindingView)>,
    name: Seq<char>,
)
    requires
        0 <= i,
        forall|j: int| i <= j < stmts.len() ==> !binds(#[trigger] stmts[j], name),
    ensures
        entry(imports_from(stmts, i, done), name) == entry(done, name),
    decreases stmts.len() - i,
{
    if i < stmts.len() {
        let aliases = aliases_of(stmts[i]);
        assert(!binds(stmts[i], name));
        assert forall|j: int| 0 <= j < aliases.len() implies !is_called(
            #[trigger] aliases[j],
            name,
        ) by {}
        match stmts[i] {
            StmtView::ImportFrom { module, names, level } => {
                lemma_from_names_keep(names, 0, from_path(module), level as nat, done, name);
            },
            StmtView::Import { names } => {
                lemma_module_names_keep(names, 0, done, name);
            },
            _ => {},
        }
        lemma_imports_keep(stmts, i + 1, after_stmt(stmts[i], done), name);
    }
}

proof fn lemma_imports_bind(
    stmts: Seq<StmtView>,
    from: int,
    done: Seq<(Seq<char>, BindingView)>,
    i: int,
    k: int,
    name: Seq<char>,
)
    requires
        0 <= from <= i,
        is_last_import(stmts, i, k, name),
    ensures
        entry(imports_from(stmts, from, done), name) is Some,
        leads_to(
            entry(imports_from(stmts, from, done), name)->0,
            stmts[i],
            aliases_of(stmts[i])[k],
        ),
    decreases i - from,
{
    if from < i {
        lemma_imports_bind(stmts, from + 1, after_stmt(stmts[from], done), i, k, name);
    } else {
        let aliases = aliases_of(stmts[i]);
        match stmts[i] {
            StmtView::ImportFrom { module, names, level } => {
                lemma_from_names_bind(names, 0, from_path(module), level as nat, done, k, name);
                if let Some(dotted) = module {
                    lemma_spells(dotted);
                }
            },
            StmtView::Import { names } => {
                lemma_module_names_bind(names, 0, done, k, name);
                lemma_spells(names[k].name);
            },
            _ => {},
        }
        lemma_imports_keep(stmts, i + 1, after_stmt(stmts[i], done), name);
    }
}

/// For base classes, a name stands for what was last imported under it: the module behind `import`,
/// or the name behind `from` and `import`. The name is that behind `as`, or the imported one
/// itself.
pub proof fn lemma_last_import_is_bound(stmts: Seq<StmtView>, i: int, k: int, name: Seq<char>)
    requires
        is_last_import(stmts, i, k, name),
    ensures
        entry(imports_from(stmts, 0, seq![]), name) is Some,
        leads_to(
            entry(imports_from(stmts, 0, seq![]), name)->0,
            stmts[i],
            aliases_of(stmts[i])[k],
        ),
{
    lemma_imports_bind(stmts, 0, seq![], i, k, name);
}

/// For base classes, a name under which nothing is imported stands for no import.
pub proof fn lemma_other_names_are_not_bound(stmts: Seq<StmtView>, name: Seq<char>)
    requires
        forall|j: int| 0 <= j < stmts.len() ==> !binds(#[trigger] stmts[j], name),
    ensures
        entry(imports_from(stmts, 0, seq![]), name) is None,
{
    lemma_imports_keep(stmts, 0, seq![], name);
}

// ---------------------------------------------------------------------------------------------
// Constants
// ---------------------------------------------------------------------------------------------
/// The name is the first of a dotted name.
pub open spec fn is_first_name(name: Seq<char>, dotted: Seq<char>) -> bool {
    !name.contains('.') && (dotted == name || name.push('.').is_prefix_of(dotted))
}

/// For constants, the import is known as `name`: `import a.b` as `a`, and a star as nothing.
pub open spec fn is_known_as(stmt: StmtView, alias: AliasView, name: Seq<char>) -> bool {
    match stmt {
        StmtView::Import { .. } => alias.asname == Some(name) || (alias.asname is None
            && is_first_name(name, alias.name)),
        StmtView::ImportFrom { .. } => alias.name != "*"@ && is_called(alias, name),
        _ => false,
    }
}

/// The statement imports something that is known as `name`.
pub open spec fn makes_known(stmt: StmtView, name: Seq<char>) -> bool {
    exists|k: int|
        0 <= k < aliases_of(stmt).len() && is_known_as(stmt, #[trigger] aliases_of(stmt)[k], name)
}

/// The `k`-th import of the `i`-th statement is the last that is known as `name`.
pub open spec fn is_last_known(stmts: Seq<StmtView>, i: int, k: int, name: Seq<char>) -> bool {
    &&& 0 <= i < stmts.len()
    &&& 0 <= k < aliases_of(stmts[i]).len()
    &&& is_known_as(stmts[i], aliases_of(stmts[i])[k], name)
    &&& forall|j: int|
        k < j < aliases_of(stmts[i]).len() ==> !is_known_as(
            stmts[i],
            #[trigger] aliases_of(stmts[i])[j],
            name,
        )
    &&& forall|j: int| i < j < stmts.len() ==> !makes_known(#[trigger] stmts[j], name)
}

/// The binding leads to what is imported by that name. `import a.b` leads to `a`.
pub open spec fn stands_for(
    binding: BindingView,
    stmt: StmtView,
    alias: AliasView,
    name: Seq<char>,
) -> bool {
    match stmt {
        StmtView::Import { .. } if alias.asname is None => {
            &&& binding.mod_path == seq![name]
            &&& binding.imported_name.len() == 0
            &&& binding.relative_level == 0
        },
        _ => leads_to(binding, stmt, alias),
    }
}

proof fn lemma_first_piece(dotted: Seq<char>, name: Seq<char>)
    ensures
        is_first_name(name, dotted) <==> pieces(dotted, '.')[0] == name,
    decreases dotted.len(),
{
    let parts = pieces(dotted, '.');
    lemma_pieces_nonempty(dotted, '.');
    lemma_pieces_hold_no_separator(dotted, '.');
    assert(!parts[0].contains('.'));
    if dotted.len() == 0 {
        assert(parts[0] =~= dotted);
        if name.push('.').is_prefix_of(dotted) {
            assert(name.push('.').len() <= 0);
        }
    } else {
        let front = dotted.drop_last();
        let before = pieces(front, '.');
        lemma_pieces_nonempty(front, '.');
        lemma_first_piece(front, name);
        lemma_first_piece(front, before[0]);
        lemma_first_piece_starts(dotted);
        let first = parts[0];
        if is_first_name(name, dotted) {
            if dotted == name && first.push('.').is_prefix_of(dotted) {
                assert(dotted[first.len() as int] == first.push('.')[first.len() as int]);
                assert(name.contains('.'));
            }
            if name.push('.').is_prefix_of(dotted) {
                let n = name.len() as int;
                assert(name.push('.')[n] == dotted[n]);
                if dotted == first {
                    assert(first.contains('.'));
                } else {
                    let m = first.len() as int;
                    assert(first.push('.')[m] == dotted[m]);
                    if n < m {
                        assert(first.push('.')[n] == dotted[n]);
                        assert(first[n] == '.');
                    } else if m < n {
                        assert(name.push('.')[m] == dotted[m]);
                        assert(name[m] == '.');
                    }
                    assert(n == m);
                    assert forall|x: int| 0 <= x < n implies name[x] == first[x] by {
                        assert(name.push('.')[x] == dotted[x]);
                        assert(first.push('.')[x] == dotted[x]);
                    }
                    assert(name =~= first);
                }
            }
        }
    }
}

proof fn lemma_first_piece_starts(dotted: Seq<char>)
    ensures
        pieces(dotted, '.').len() > 0,
        pieces(dotted, '.').len() == 1 ==> pieces(dotted, '.')[0] == dotted,
        pieces(dotted, '.').len() > 1 ==> pieces(dotted, '.')[0].push('.').is_prefix_of(dotted),
    decreases dotted.len(),
{
    let parts = pieces(dotted, '.');
    if dotted.len() == 0 {
        assert(parts[0] =~= dotted);
    } else {
        let front = dotted.drop_last();
        let before = pieces(front, '.');
        lemma_first_piece_starts(front);
        if dotted.last() == '.' {
            assert(parts[0] == before[0]);
            if before.len() == 1 {
                assert(before[0].push('.') =~= dotted);
            } else {
                assert forall|x: int| 0 <= x < before[0].push('.').len() implies before[0].push(
                    '.',
                )[x] == dotted[x] by {
                    assert(before[0].push('.')[x] == front[x]);
                }
                assert(before[0].push('.') =~= dotted.take((before[0].len() + 1) as int));
            }
        } else if before.len() == 1 {
            assert(parts[0] =~= dotted);
        } else {
            assert(parts[0] == before[0]);
            assert forall|x: int| 0 <= x < before[0].push('.').len() implies before[0].push('.')[x]
                == dotted[x] by {
                assert(before[0].push('.')[x] == front[x]);
            }
            assert(before[0].push('.') =~= dotted.take((before[0].len() + 1) as int));
        }
    }
}

proof fn lemma_from_bindings(
    aliases: Seq<AliasView>,
    i: int,
    mod_path: Seq<Seq<char>>,
    level: nat,
    done: Seq<(Seq<char>, BindingView)>,
    k: int,
    name: Seq<char>,
)
    requires
        0 <= i,
        forall|j: int|
            i <= j < aliases.len() && j > k ==> (#[trigger] aliases[j]).name == "*"@ || !is_called(
                aliases[j],
                name,
            ),
        i <= k ==> k < aliases.len() && aliases[k].name != "*"@ && is_called(aliases[k], name),
    ensures
        entry(from_bindings(aliases, i, mod_path, level, done), name) == if i <= k {
            Some(BindingView { mod_path, imported_name: aliases[k].name, relative_level: level })
        } else {
            entry(done, name)
        },
    decreases aliases.len() - i,
{
    if i < aliases.len() {
        let local = match aliases[i].asname {
            Some(asname) => asname,
            None => aliases[i].name,
        };
        let binding = BindingView {
            mod_path,
            imported_name: aliases[i].name,
            relative_level: level,
        };
        let next = if aliases[i].name == "*"@ {
            done
        } else {
            with_entry(done, local, binding)
        };
        lemma_entry_after_insert(done, local, binding, name);
        lemma_from_bindings(aliases, i + 1, mod_path, level, next, k, name);
        if i > k {
            assert(aliases[i].name == "*"@ || !is_called(aliases[i], name));
        }
    }
}

/// The path and the name by which `import` makes a module known.
spec fn module_known(alias: AliasView) -> (Seq<char>, Seq<Seq<char>>) {
    let path = pieces(alias.name, '.');
    match alias.asname {
        Some(asname) => (asname, path),
        None => (path[0], seq![path[0]]),
    }
}

proof fn lemma_import_bindings(
    aliases: Seq<AliasView>,
    i: int,
    done: Seq<(Seq<char>, BindingView)>,
    k: int,
    name: Seq<char>,
)
    requires
        0 <= i,
        forall|j: int|
            i <= j < aliases.len() && j > k ==> module_known(#[trigger] aliases[j]).0 != name,
        i <= k ==> k < aliases.len() && module_known(aliases[k]).0 == name,
    ensures
        entry(import_bindings(aliases, i, done), name) == if i <= k {
            Some(
                BindingView {
                    mod_path: module_known(aliases[k]).1,
                    imported_name: seq![],
                    relative_level: 0,
                },
            )
        } else {
            entry(done, name)
        },
    decreases aliases.len() - i,
{
    if i < aliases.len() {
        let (local, mod_path) = module_known(aliases[i]);
        let binding = BindingView { mod_path, imported_name: seq![], relative_level: 0 };
        lemma_entry_after_insert(done, local, binding, name);
        lemma_import_bindings(aliases, i + 1, with_entry(done, local, binding), k, name);
        if i > k {
            assert(module_known(aliases[i]).0 != name);
        }
    }
}

proof fn lemma_known_by_statement(
    stmt: StmtView,
    done: Seq<(Seq<char>, BindingView)>,
    k: int,
    name: Seq<char>,
)
    requires
        -1 <= k < aliases_of(stmt).len(),
        forall|j: int|
            k < j < aliases_of(stmt).len() ==> !is_known_as(
                stmt,
                #[trigger] aliases_of(stmt)[j],
                name,
            ),
        0 <= k ==> is_known_as(stmt, aliases_of(stmt)[k], name),
    ensures
        ({
            let after = match stmt {
                StmtView::ImportFrom { module, names, level } => from_bindings(
                    names,
                    0,
                    from_path(module),
                    level as nat,
                    done,
                ),
                StmtView::Import { names } => import_bindings(names, 0, done),
                _ => done,
            };
            if 0 <= k {
                entry(after, name) is Some && stands_for(
                    entry(after, name)->0,
                    stmt,
                    aliases_of(stmt)[k],
                    name,
                )
            } else {
                entry(after, name) == entry(done, name)
            }
        }),
{
    let aliases = aliases_of(stmt);
    match stmt {
        StmtView::ImportFrom { module, names, level } => {
            assert forall|j: int| 0 <= j < names.len() && j > k implies (#[trigger] names[j]).name
                == "*"@ || !is_called(names[j], name) by {
                assert(!is_known_as(stmt, aliases[j], name));
            }
            lemma_from_bindings(names, 0, from_path(module), level as nat, done, k, name);
            if let Some(dotted) = module {
                lemma_spells(dotted);
            }
        },
        StmtView::Import { names } => {
            assert forall|j: int| 0 <= j < names.len() && j > k implies module_known(
                #[trigger] names[j],
            ).0 != name by {
                assert(!is_known_as(stmt, aliases[j], name));
                lemma_first_piece(names[j].name, name);
            }
            if 0 <= k {
                lemma_first_piece(names[k].name, name);
                lemma_spells(names[k].name);
            }
            lemma_import_bindings(names, 0, done, k, name);
        },
        _ => {},
    }
}

/// The bindings for constants after one statement.
spec fn known_after(stmt: StmtView, done: Seq<(Seq<char>, BindingView)>) -> Seq<
    (Seq<char>, BindingView),
> {
    match stmt {
        StmtView::ImportFrom { module, names, level } => from_bindings(
            names,
            0,
            from_path(module),
            level as nat,
            done,
        ),
        StmtView::Import { names } => import_bindings(names, 0, done),
        _ => done,
    }
}

proof fn lemma_known_is_kept(
    stmts: Seq<StmtView>,
    i: int,
    done: Seq<(Seq<char>, BindingView)>,
    name: Seq<char>,
)
    requires
        0 <= i,
        forall|j: int| i <= j < stmts.len() ==> !makes_known(#[trigger] stmts[j], name),
    ensures
        entry(bindings_from(stmts, i, done), name) == entry(done, name),
    decreases stmts.len() - i,
{
    if i < stmts.len() {
        assert(!makes_known(stmts[i], name));
        lemma_known_by_statement(stmts[i], done, -1, name);
        lemma_known_is_kept(stmts, i + 1, known_after(stmts[i], done), name);
    }
}

proof fn lemma_known_is_bound(
    stmts: Seq<StmtView>,
    from: int,
    done: Seq<(Seq<char>, BindingView)>,
    i: int,
    k: int,
    name: Seq<char>,
)
    requires
        0 <= from <= i,
        is_last_known(stmts, i, k, name),
    ensures
        entry(bindings_from(stmts, from, done), name) is Some,
        stands_for(
            entry(bindings_from(stmts, from, done), name)->0,
            stmts[i],
            aliases_of(stmts[i])[k],
            name,
        ),
    decreases i - from,
{
    if from < i {
        lemma_known_is_bound(stmts, from + 1, known_after(stmts[from], done), i, k, name);
    } else {
        lemma_known_by_statement(stmts[i], done, k, name);
        lemma_known_is_kept(stmts, i + 1, known_after(stmts[i], done), name);
    }
}

/// For constants, a name stands for what was last imported under it. `import a.b` makes `a` known,
/// and a star import makes nothing known.
pub proof fn lemma_last_known_is_bound(stmts: Seq<StmtView>, i: int, k: int, name: Seq<char>)
    requires
        is_last_known(stmts, i, k, name),
    ensures
        entry(bindings_from(stmts, 0, seq![]), name) is Some,
        stands_for(
            entry(bindings_from(stmts, 0, seq![]), name)->0,
            stmts[i],
            aliases_of(stmts[i])[k],
            name,
        ),
{
    lemma_known_is_bound(stmts, 0, seq![], i, k, name);
}

/// For constants, a name under which nothing is made known stands for no import.
pub proof fn lemma_unknown_is_not_bound(stmts: Seq<StmtView>, name: Seq<char>)
    requires
        forall|j: int| 0 <= j < stmts.len() ==> !makes_known(#[trigger] stmts[j], name),
    ensures
        entry(bindings_from(stmts, 0, seq![]), name) is None,
{
    lemma_known_is_kept(stmts, 0, seq![], name);
}

} // verus!
