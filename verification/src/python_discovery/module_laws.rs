//! Where modules are looked for, and which module a file is.

use crate::collection::error::ErrorView;
use crate::display_laws::lemma_part_of_sum;
use crate::python_discovery::discovery::{component_module, component_modules, file_module_path};
use crate::python_discovery::module_resolver::{
    first_existing, load_outcome, not_found, parse_failure, places, places_in, refusal, FoundSource,
};
use crate::python_discovery::parser::parse_result;
use crate::python_discovery::pattern::{any_accepts, pattern_accepts};
use crate::python_discovery::semantic_analyzer::init_warning;
use crate::python_discovery::syntax::{ClassView, StmtView};
use crate::strings::{has_part, joined};
use vstd::prelude::*;

verus! {

// ---------------------------------------------------------------------------------------------
// Files and modules
// ---------------------------------------------------------------------------------------------
/// The names of a module's path are plain: none ends like a source file.
pub open spec fn is_plain_path(path: Seq<Seq<char>>) -> bool {
    path.len() > 0 && forall|i: int|
        0 <= i < path.len() ==> !".py"@.is_suffix_of(#[trigger] path[i])
}

proof fn lemma_directories(names: Seq<Seq<char>>, file: Seq<char>)
    requires
        forall|i: int| 0 <= i < names.len() ==> !".py"@.is_suffix_of(#[trigger] names[i]),
    ensures
        component_modules(names, file) == names,
    decreases names.len(),
{
    if names.len() > 0 {
        let front = names.drop_last();
        assert forall|i: int| 0 <= i < front.len() implies !".py"@.is_suffix_of(
            #[trigger] front[i],
        ) by {
            assert(front[i] == names[i]);
        }
        lemma_directories(front, file);
        assert(names.last() == names[names.len() - 1]);
        assert(component_modules(names, file) =~= names);
    } else {
        assert(component_modules(names, file) =~= names);
    }
}

/// A module is looked for in a file of its own name, and else in the package of its name; each of
/// the two files is that module.
pub proof fn lemma_places_are_those_of_the_module(root: Seq<char>, path: Seq<Seq<char>>)
    requires
        is_plain_path(path),
        path.last() != "__init__"@,
    ensures
        places_in(root, path).len() == 2,
        forall|i: int|
            0 <= i < 2 ==> (#[trigger] places_in(root, path)[i])[0] == root && file_module_path(
                places_in(root, path)[i].drop_first(),
            ) == path,
        places_in(root, path)[0].last() == path.last() + ".py"@,
        places_in(root, path)[1].last() == "__init__.py"@,
{
    reveal_strlit(".py");
    reveal_strlit("__init__");
    reveal_strlit("__init__.py");
    let suffix = ".py"@;
    assert(suffix.len() == 3 && "__init__"@.len() == 8 && "__init__.py"@.len() == 11);
    let all = places_in(root, path);
    let front = path.drop_last();
    let last = path.last();
    assert(last == path[path.len() - 1]);
    assert forall|i: int| 0 <= i < front.len() implies !suffix.is_suffix_of(#[trigger] front[i]) by {
        assert(front[i] == path[i]);
    }
    let file = last + suffix;
    let one = all[0].drop_first();
    assert(one =~= front.push(file));
    assert(one.drop_last() =~= front);
    lemma_directories(front, file);
    assert(suffix =~= file.subrange(file.len() - 3, file.len() as int));
    assert(file.take(file.len() - 3) =~= last);
    assert(component_module(file, file) == Some(last));
    assert(file_module_path(one) =~= path);
    let init = "__init__.py"@;
    let two = all[1].drop_first();
    assert(two =~= path.push(init));
    assert(two.drop_last() =~= path);
    lemma_directories(path, init);
    assert(suffix =~= init.subrange(8, 11));
    assert(init.take(8) =~= "__init__"@);
    assert(component_module(init, init) is None);
    assert(file_module_path(two) =~= path);
}

/// The roots are searched one after another.
pub proof fn lemma_roots_in_order(
    roots: Seq<Seq<char>>,
    more: Seq<Seq<char>>,
    path: Seq<Seq<char>>,
)
    ensures
        places(roots + more, path) == places(roots, path) + places(more, path),
        roots.len() == 1 ==> places(roots, path) == places_in(roots[0], path),
    decreases more.len(),
{
    if roots.len() == 1 {
        assert(roots.drop_last() =~= Seq::<Seq<char>>::empty());
        assert(places(roots.drop_last(), path) =~= Seq::<Seq<Seq<char>>>::empty());
        assert(places(roots, path) =~= places_in(roots[0], path));
    }
    if more.len() == 0 {
        assert(roots + more =~= roots);
        assert(places(roots, path) + places(more, path) =~= places(roots, path));
    } else {
        let front = more.drop_last();
        lemma_roots_in_order(roots, front, path);
        assert((roots + more).drop_last() =~= roots + front);
        assert((roots + more).last() == more.last());
        assert(places(roots + more, path) =~= places(roots, path) + places(more, path));
    }
}

/// The first place that exists is taken.
pub proof fn lemma_first_place_is_taken(exists: Seq<bool>, k: int)
    requires
        0 <= k <= exists.len(),
        forall|i: int| 0 <= i < k ==> !#[trigger] exists[i],
        k < exists.len() ==> exists[k],
    ensures
        k < exists.len() ==> first_existing(exists, 0) == Some(k),
        k == exists.len() ==> first_existing(exists, 0) is None,
{
    lemma_first_from(exists, 0, k);
}

proof fn lemma_first_from(exists: Seq<bool>, i: int, k: int)
    requires
        0 <= i <= k <= exists.len(),
        forall|i: int| 0 <= i < k ==> !#[trigger] exists[i],
        k < exists.len() ==> exists[k],
    ensures
        k < exists.len() ==> first_existing(exists, i) == Some(k),
        k == exists.len() ==> first_existing(exists, i) is None,
    decreases k - i,
{
    if i < k {
        assert(!exists[i]);
        lemma_first_from(exists, i + 1, k);
    }
}

// ---------------------------------------------------------------------------------------------
// Loading
// ---------------------------------------------------------------------------------------------
/// A module that is found and can be parsed is loaded as the statements of its source. One that is
/// not found is an error on its import, one that cannot be read an error of reading, and one that
/// cannot be parsed an error that names the file.
pub proof fn lemma_loading(path: Seq<Seq<char>>, file: String, text: String, why: String)
    requires
        refusal(path) is None,
    ensures
        load_outcome(path, None) == Err::<Seq<StmtView>, ErrorView>(not_found(path)),
        not_found(path) is ImportError,
        has_part(not_found(path)->ImportError_0, joined(path, "."@)),
        load_outcome(path, Some(FoundSource { path: file, contents: Err(why) })) == Err::<
            Seq<StmtView>,
            ErrorView,
        >(ErrorView::IoError(why@)),
        match parse_result(text@) {
            Ok(stmts) => load_outcome(path, Some(FoundSource { path: file, contents: Ok(text) }))
                == Ok::<Seq<StmtView>, ErrorView>(stmts),
            Err(message) => {
                &&& load_outcome(path, Some(FoundSource { path: file, contents: Ok(text) }))
                    == Err::<Seq<StmtView>, ErrorView>(parse_failure(file@, message))
                &&& parse_failure(file@, message) is ParseError
                &&& has_part(parse_failure(file@, message)->ParseError_0, file@)
                &&& message.is_suffix_of(parse_failure(file@, message)->ParseError_0)
            },
        },
{
    let name = joined(path, "."@);
    let lead = "Could not find module: "@;
    lemma_part_of_sum(lead, name, seq![]);
    assert(lead + name + Seq::<char>::empty() =~= lead + name);
    if let Err(message) = parse_result(text@) {
        let all = parse_failure(file@, message)->ParseError_0;
        assert(all =~= "Failed to parse "@ + file@ + (": "@ + message));
        lemma_part_of_sum("Failed to parse "@, file@, ": "@ + message);
        assert(message =~= all.subrange(all.len() - message.len(), all.len() as int));
    }
}

// ---------------------------------------------------------------------------------------------
// Names of tests
// ---------------------------------------------------------------------------------------------
/// A list of patterns accepts what one of its halves accepts; a list of one pattern what that
/// pattern accepts, and an empty list nothing.
pub proof fn lemma_any_pattern_accepts(
    patterns: Seq<Seq<char>>,
    more: Seq<Seq<char>>,
    name: Seq<char>,
)
    ensures
        any_accepts(patterns + more, name) == (any_accepts(patterns, name) || any_accepts(
            more,
            name,
        )),
        patterns.len() == 1 ==> any_accepts(patterns, name) == pattern_accepts(patterns[0], name),
        !any_accepts(seq![], name),
{
    let all = patterns + more;
    if any_accepts(all, name) {
        let i = choose|i: int| 0 <= i < all.len() && pattern_accepts(#[trigger] all[i], name);
        if i < patterns.len() {
            assert(pattern_accepts(patterns[i], name));
        } else {
            assert(pattern_accepts(more[i - patterns.len()], name));
        }
    }
    if any_accepts(patterns, name) {
        let i = choose|i: int|
            0 <= i < patterns.len() && pattern_accepts(#[trigger] patterns[i], name);
        assert(pattern_accepts(all[i], name));
    }
    if any_accepts(more, name) {
        let i = choose|i: int| 0 <= i < more.len() && pattern_accepts(#[trigger] more[i], name);
        assert(pattern_accepts(all[patterns.len() + i], name));
    }
}

/// The warning on a class that is not collected names the file and the class, and gives the line
/// behind that at which the class starts.
pub proof fn lemma_warning_on_class(file: Seq<char>, class: ClassView)
    ensures
        init_warning(file, class).file_path == file,
        has_part(init_warning(file, class).message, class.name),
        class.offset < usize::MAX ==> init_warning(file, class).line == class.offset + 1,
{
    lemma_part_of_sum(
        "cannot collect test class '"@,
        class.name,
        "' because it has a __init__ constructor"@,
    );
}

} // verus!
