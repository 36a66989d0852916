//! Module resolver for Python imports.
//!
//! This module resolves Python module imports to the places at which their files may stand, and
//! keeps the modules that were loaded from there.

use crate::collection::error::{CollectionError, CollectionResult, ErrorView};
use crate::python_discovery::parser::{parse, parse_result};
use crate::python_discovery::stdlib::{built_in, is_builtin_module};
use crate::python_discovery::syntax::{PyModule, StmtView};
use crate::strings::{copy, copy_all, join, joined, same_all, text_lists, texts};
use vstd::prelude::*;

verus! {

/// The absolute path of an import: `level` is 0 for absolute imports, 1 for `.`, 2 for `..`, and
/// so on. A relative import that leaves the top-level package has none.
pub open spec fn absolute_import(
    current: Seq<Seq<char>>,
    level: nat,
    parts: Seq<Seq<char>>,
) -> Option<Seq<Seq<char>>> {
    if level == 0 {
        Some(parts)
    } else if current.len() < level {
        None
    } else {
        Some(current.take(current.len() - level) + parts)
    }
}

/// A copy of the first `count` texts of `list` followed by those of `more`.
pub fn prefix_and(list: &[String], count: usize, more: &[String]) -> (r: Vec<String>)
    requires
        count <= list@.len(),
    ensures
        texts(r@) == texts(list@).take(count as int) + texts(more@),
{
    let head = vstd::slice::slice_subrange(list, 0, count);
    let mut r = copy_all(head);
    let ghost start = r@;
    assert(texts(start) =~= texts(list@).take(count as int)) by {
        assert(texts(head@) =~= texts(list@).take(count as int));
    }
    let mut i: usize = 0;
    while i < more.len()
        invariant
            i <= more@.len(),
            texts(r@) == texts(start) + texts(more@).take(i as int),
        decreases more@.len() - i,
    {
        let ghost before = r@;
        r.push(copy(more[i].as_str()));
        i = i + 1;
        assert(texts(r@) =~= texts(before).push(more@[i - 1]@));
        assert(texts(more@).take(i as int) =~= texts(more@).take(i - 1).push(more@[i - 1]@));
        assert(texts(r@) =~= texts(start) + texts(more@).take(i as int));
    }
    assert(texts(more@).take(more@.len() as int) =~= texts(more@));
    r
}

/// Resolve a relative import to an absolute module path.
///
/// `relative_level` is 0 for absolute imports, 1 for `.`, 2 for `..`, etc.
pub fn resolve_relative_import(
    current_module_path: &[String],
    relative_level: usize,
    module_parts: &[String],
) -> (r: Option<Vec<String>>)
    ensures
        match r {
            Some(path) => absolute_import(
                texts(current_module_path@),
                relative_level as nat,
                texts(module_parts@),
            ) == Some(texts(path@)),
            None => absolute_import(
                texts(current_module_path@),
                relative_level as nat,
                texts(module_parts@),
            ) is None,
        },
{
    if relative_level == 0 {
        return Some(copy_all(module_parts));
    }
    if current_module_path.len() < relative_level {
        return None;
    }
    Some(
        prefix_and(
            current_module_path,
            current_module_path.len() - relative_level,
            module_parts,
        ),
    )
}

/// The error on a file that cannot be parsed.
pub open spec fn parse_failure(file: Seq<char>, message: Seq<char>) -> ErrorView {
    ErrorView::ParseError("Failed to parse "@ + file + ": "@ + message)
}

/// The error on a file that cannot be parsed.
pub fn parse_error(file: &str, message: &str) -> (r: CollectionError)
    ensures
        r@ == parse_failure(file@, message@),
{
    let mut text = copy("Failed to parse ");
    text.append(file);
    text.append(": ");
    text.append(message);
    CollectionError::ParseError(text)
}

// ---------------------------------------------------------------------------------------------
// Loaded modules
// ---------------------------------------------------------------------------------------------
/// Information about a parsed Python module
#[derive(Debug)]
pub struct ParsedModule {
    pub path: String,
    pub source: String,
    pub module: PyModule,
}

/// A module that was asked for, and what loading it came to.
#[derive(Debug)]
pub struct ModuleLoad {
    pub path: Vec<String>,
    pub result: CollectionResult<ParsedModule>,
}

/// View of a [`ModuleLoad`].
pub ghost struct LoadView {
    pub path: Seq<Seq<char>>,
    pub result: Result<Seq<StmtView>, ErrorView>,
}

impl ModuleLoad {
    pub open spec fn view(&self) -> LoadView {
        LoadView {
            path: texts(self.path@),
            result: match self.result {
                Ok(loaded) => Ok(loaded.module@),
                Err(error) => Err(error@),
            },
        }
    }
}

pub open spec fn load_views(list: Seq<ModuleLoad>) -> Seq<LoadView> {
    Seq::new(list.len(), |i: int| list[i].view())
}

/// What loading the module came to, by the first entry from `i` on.
pub open spec fn load_from(loads: Seq<LoadView>, path: Seq<Seq<char>>, i: int) -> Option<
    Result<Seq<StmtView>, ErrorView>,
>
    decreases loads.len() - i,
{
    if i < 0 || i >= loads.len() {
        None
    } else if loads[i].path == path {
        Some(loads[i].result)
    } else {
        load_from(loads, path, i + 1)
    }
}

/// The place of the first entry for a module from `i` on, or the number of entries.
pub open spec fn load_place(loads: Seq<LoadView>, path: Seq<Seq<char>>, i: int) -> int
    decreases loads.len() - i,
{
    if i < 0 || i >= loads.len() {
        loads.len() as int
    } else if loads[i].path == path {
        i
    } else {
        load_place(loads, path, i + 1)
    }
}

/// The place of the entry for a module, or the number of entries.
fn place_of_load(loads: &[ModuleLoad], path: &[String]) -> (r: usize)
    ensures
        r <= loads@.len(),
        r == load_place(load_views(loads@), texts(path@), 0),
        r < loads@.len() ==> texts(loads@[r as int].path@) == texts(path@),
        load_from(load_views(loads@), texts(path@), 0) == if r < loads@.len() {
            Some(loads@[r as int]@.result)
        } else {
            None
        },
{
    let ghost views = load_views(loads@);
    let mut i: usize = 0;
    while i < loads.len()
        invariant
            i <= loads@.len(),
            views == load_views(loads@),
            load_from(views, texts(path@), 0) == load_from(views, texts(path@), i as int),
            load_place(views, texts(path@), 0) == load_place(views, texts(path@), i as int),
        decreases loads@.len() - i,
    {
        assert(views[i as int] == loads@[i as int]@);
        if same_all(loads[i].path.as_slice(), path) {
            return i;
        }
        i = i + 1;
    }
    i
}

/// What loading a module came to, if it was asked for.
pub fn find_load<'a>(loads: &'a [ModuleLoad], path: &[String]) -> (r: Option<&'a ModuleLoad>)
    ensures
        match r {
            Some(load) => load_from(load_views(loads@), texts(path@), 0) == Some(load@.result),
            None => load_from(load_views(loads@), texts(path@), 0) is None,
        },
{
    let at = place_of_load(loads, path);
    if at < loads.len() {
        Some(&loads[at])
    } else {
        None
    }
}

// ---------------------------------------------------------------------------------------------
// Resolver
// ---------------------------------------------------------------------------------------------
/// The source of a module, as it was read from disk.
#[derive(Debug)]
pub struct FoundSource {
    pub path: String,
    /// The contents, or why they could not be read.
    pub contents: Result<String, String>,
}

/// Resolves Python module imports to file paths and loads modules
#[derive(Debug)]
pub struct ModuleResolver {
    /// Search paths for module resolution
    pub search_paths: Vec<String>,
    /// What was asked for so far
    pub loads: Vec<ModuleLoad>,
}

/// The files that can hold a module below a root: the module's own, then that of a package. A path
/// is given by its names, the root first.
pub open spec fn places_in(root: Seq<char>, path: Seq<Seq<char>>) -> Seq<Seq<Seq<char>>> {
    if path.len() == 0 {
        seq![]
    } else {
        let dir = seq![root] + path.drop_last();
        seq![
            dir.push(path.last() + ".py"@),
            dir.push(path.last()).push("__init__.py"@),
        ]
    }
}

/// The files that can hold a module, root by root.
pub open spec fn places(roots: Seq<Seq<char>>, path: Seq<Seq<char>>) -> Seq<Seq<Seq<char>>>
    decreases roots.len(),
{
    if roots.len() == 0 {
        seq![]
    } else {
        places(roots.drop_last(), path) + places_in(roots.last(), path)
    }
}

/// Why a module is not looked for at all.
pub open spec fn refusal(path: Seq<Seq<char>>) -> Option<ErrorView> {
    if path.len() == 0 {
        Some(ErrorView::ImportError("Empty module path"@))
    } else if built_in(11, path[0]) {
        Some(
            ErrorView::ImportError(
                "Cannot resolve built-in module '"@ + joined(path, "."@)
                    + "' - inheritance from built-in modules is not supported"@,
            ),
        )
    } else {
        None
    }
}

/// Why a module that is in none of its places cannot be loaded.
pub open spec fn not_found(path: Seq<Seq<char>>) -> ErrorView {
    ErrorView::ImportError("Could not find module: "@ + joined(path, "."@))
}

/// What loading a module comes to, given its source, if it was found.
pub open spec fn load_outcome(path: Seq<Seq<char>>, found: Option<FoundSource>) -> Result<
    Seq<StmtView>,
    ErrorView,
> {
    match refusal(path) {
        Some(error) => Err(error),
        None => match found {
            None => Err(not_found(path)),
            Some(source) => match source.contents {
                Err(message) => Err(ErrorView::IoError(message@)),
                Ok(text) => match parse_result(text@) {
                    Err(message) => Err(parse_failure(source.path@, message)),
                    Ok(stmts) => Ok(stmts),
                },
            },
        },
    }
}

fn push_path(list: &mut Vec<Vec<String>>, path: Vec<String>)
    ensures
        text_lists(final(list)@) == text_lists(old(list)@).push(texts(path@)),
{
    let ghost before = text_lists(list@);
    let ghost added = texts(path@);
    list.push(path);
    assert(text_lists(list@) =~= before.push(added));
}

fn push_name(path: &mut Vec<String>, name: &str)
    ensures
        texts(final(path)@) == texts(old(path)@).push(name@),
{
    let ghost before = texts(path@);
    path.push(copy(name));
    assert(texts(path@) =~= before.push(name@));
}

/// Get all possible file paths for a module in a specific root directory
pub fn get_possible_paths_in_root(mod_path: &[String], root: &str) -> (r: Vec<Vec<String>>)
    ensures
        text_lists(r@) == places_in(root@, texts(mod_path@)),
{
    let ghost path = texts(mod_path@);
    let mut paths: Vec<Vec<String>> = Vec::new();
    assert(text_lists(paths@) =~= Seq::<Seq<Seq<char>>>::empty());
    let n = mod_path.len();
    if n == 0 {
        return paths;
    }
    // Build the base directory path from all but the last component
    let mut base: Vec<String> = Vec::new();
    push_name(&mut base, root);
    assert(texts(base@).len() == 1);
    let parents = vstd::slice::slice_subrange(mod_path, 0, n - 1);
    let dir = prefix_and(base.as_slice(), 1, parents);
    let name = mod_path[n - 1].as_str();
    proof {
        assert(texts(base@).take(1) =~= seq![root@]);
        assert(texts(parents@) =~= path.drop_last());
        assert(path.last() == name@);
    }
    // Try module_name.py (regular module)
    let mut file_name = copy(name);
    file_name.append(".py");
    let mut py_file = copy_all(dir.as_slice());
    push_name(&mut py_file, file_name.as_str());
    push_path(&mut paths, py_file);
    // Try module_name/__init__.py (package)
    let mut package_init = dir;
    push_name(&mut package_init, name);
    push_name(&mut package_init, "__init__.py");
    push_path(&mut paths, package_init);
    assert(text_lists(paths@) =~= places_in(root@, path));
    paths
}

/// The first of the places that exists.
pub open spec fn first_existing(exists: Seq<bool>, i: int) -> Option<int>
    decreases exists.len() - i,
{
    if i < 0 || i >= exists.len() {
        None
    } else if exists[i] {
        Some(i)
    } else {
        first_existing(exists, i + 1)
    }
}

/// Which of a module's places is taken, given which of them exist.
pub fn try_resolve_in_search_path(exists: &[bool]) -> (r: Option<usize>)
    ensures
        match r {
            Some(at) => first_existing(exists@, 0) == Some(at as int),
            None => first_existing(exists@, 0) is None,
        },
{
    let mut i: usize = 0;
    while i < exists.len()
        invariant
            i <= exists@.len(),
            first_existing(exists@, 0) == first_existing(exists@, i as int),
        decreases exists@.len() - i,
    {
        if exists[i] {
            return Some(i);
        }
        i = i + 1;
    }
    None
}

impl ModuleResolver {
    /// Searches the paths of the environment first, then the project's root.
    pub fn new(pythonpath: Vec<String>, project_root: &str) -> (r: CollectionResult<Self>)
        ensures
            r is Ok,
            texts(r->Ok_0.search_paths@) == texts(pythonpath@).push(project_root@),
            r->Ok_0.loads@.len() == 0,
    {
        let mut search_paths = pythonpath;
        push_name(&mut search_paths, project_root);
        Ok(ModuleResolver { search_paths, loads: Vec::new() })
    }

    /// Copy of this resolver's search paths with an empty module cache.
    pub fn with_search_paths(&self) -> (r: Self)
        ensures
            texts(r.search_paths@) == texts(self.search_paths@),
            r.loads@.len() == 0,
    {
        ModuleResolver {
            search_paths: copy_all(self.search_paths.as_slice()),
            loads: Vec::new(),
        }
    }

    /// The files that can hold a module, in the order in which they are tried, or why the module is
    /// not looked for.
    pub fn resolve_with_search_paths(&self, mod_path: &[String]) -> (r: CollectionResult<
        Vec<Vec<String>>,
    >)
        ensures
            match r {
                Err(error) => refusal(texts(mod_path@)) == Some(error@),
                Ok(found) => refusal(texts(mod_path@)) is None && text_lists(found@) == places(
                    texts(self.search_paths@),
                    texts(mod_path@),
                ),
            },
    {
        let ghost path = texts(mod_path@);
        if mod_path.len() == 0 {
            return Err(CollectionError::ImportError(copy("Empty module path")));
        }
        // Check if this is a built-in module
        assert(path[0] == mod_path@[0]@);
        if is_builtin_module(11, mod_path[0].as_str()) {
            let mut message = copy("Cannot resolve built-in module '");
            message.append(join(mod_path, ".").as_str());
            message.append("' - inheritance from built-in modules is not supported");
            return Err(CollectionError::ImportError(message));
        }
        // Try each search path in order
        let ghost roots = texts(self.search_paths@);
        let mut all: Vec<Vec<String>> = Vec::new();
        let mut i: usize = 0;
        proof {
            assert(roots.take(0) =~= Seq::<Seq<char>>::empty());
            assert(text_lists(all@) =~= Seq::<Seq<Seq<char>>>::empty());
        }
        while i < self.search_paths.len()
            invariant
                i <= self.search_paths@.len(),
                roots == texts(self.search_paths@),
                path == texts(mod_path@),
                text_lists(all@) == places(roots.take(i as int), path),
            decreases self.search_paths@.len() - i,
        {
            proof {
                assert(roots.take(i + 1).drop_last() =~= roots.take(i as int));
                assert(roots.take(i + 1).last() == self.search_paths@[i as int]@);
            }
            let here = get_possible_paths_in_root(mod_path, self.search_paths[i].as_str());
            let ghost before = text_lists(all@);
            let ghost more = text_lists(here@);
            for place in it: here.into_iter()
                invariant
                    more == text_lists(it.seq()),
                    text_lists(all@) == before + more.take(it.index() as int),
            {
                let ghost k = it.index() as int;
                assert(more.take(k + 1) =~= more.take(k).push(texts(place@)));
                push_path(&mut all, place);
                assert(text_lists(all@) =~= before + more.take(k + 1));
            }
            assert(more.take(more.len() as int) =~= more);
            i = i + 1;
        }
        assert(roots.take(roots.len() as int) =~= roots);
        Ok(all)
    }

    fn load_module(mod_path: &[String], found: Option<FoundSource>) -> (r: CollectionResult<
        ParsedModule,
    >)
        requires
            refusal(texts(mod_path@)) is None,
        ensures
            match r {
                Ok(loaded) => {
                    &&& load_outcome(texts(mod_path@), found) == Ok::<Seq<StmtView>, ErrorView>(
                        loaded.module@,
                    )
                    &&& loaded.path == found->0.path
                    &&& loaded.source == found->0.contents->Ok_0
                },
                Err(error) => load_outcome(texts(mod_path@), found) == Err::<
                    Seq<StmtView>,
                    ErrorView,
                >(error@),
            },
    {
        match found {
            None => {
                let mut message = copy("Could not find module: ");
                message.append(join(mod_path, ".").as_str());
                Err(CollectionError::ImportError(message))
            },
            Some(file) => match file.contents {
                Err(message) => Err(CollectionError::IoError(message)),
                Ok(source) => match parse(source.as_str()) {
                    Err(message) => Err(parse_error(file.path.as_str(), message.as_str())),
                    Ok(module) => Ok(ParsedModule { path: file.path, source, module }),
                },
            },
        }
    }

    /// Loads a module, given what stands in the first of its places that exists. A module that was
    /// loaded before is not loaded again; one that could not be loaded is tried anew.
    pub fn resolve_and_load(&mut self, mod_path: &[String], found: Option<FoundSource>) -> (r:
        CollectionResult<&ParsedModule>)
        ensures
            ({
                let before = old(self).loads@;
                let at = load_place(load_views(before), texts(mod_path@), 0);
                if at < before.len() && before[at].result is Ok {
                    &&& *final(self) == *old(self)
                    &&& r is Ok
                    &&& *r->Ok_0 == before[at].result->Ok_0
                } else {
                    let after = final(self).loads@;
                    &&& final(self).search_paths == old(self).search_paths
                    &&& after.len() == if at < before.len() {
                        before.len()
                    } else {
                        before.len() + 1
                    }
                    &&& forall|i: int| 0 <= i < before.len() && i != at ==> after[i] == before[i]
                    &&& after[at]@.path == texts(mod_path@)
                    &&& after[at]@.result == load_outcome(texts(mod_path@), found)
                    &&& match r {
                        Ok(loaded) => {
                            &&& after[at].result is Ok
                            &&& *loaded == after[at].result->Ok_0
                            &&& loaded.path == found->0.path
                            &&& loaded.source == found->0.contents->Ok_0
                        },
                        Err(error) => after[at]@.result == Err::<Seq<StmtView>, ErrorView>(error@),
                    }
                }
            }),
    {
        let at = place_of_load(self.loads.as_slice(), mod_path);
        let mut known = false;
        if at < self.loads.len() {
            known = self.loads[at].result.is_ok();
        }
        if !known {
            let result = match self.resolve_with_search_paths(mod_path) {
                Err(error) => Err(error),
                Ok(_) => ModuleResolver::load_module(mod_path, found),
            };
            let load = ModuleLoad { path: copy_all(mod_path), result };
            if at < self.loads.len() {
                self.loads[at] = load;
            } else {
                self.loads.push(load);
            }
        }
        match &self.loads[at].result {
            Ok(loaded) => Ok(loaded),
            Err(error) => Err(error.copy()),
        }
    }

    /// Clear the module cache
    pub fn clear_cache(&mut self)
        ensures
            final(self).loads@.len() == 0,
            final(self).search_paths == old(self).search_paths,
    {
        self.loads = Vec::new();
    }
}

// ---------------------------------------------------------------------------------------------
// Relative imports
// ---------------------------------------------------------------------------------------------
/// One dot more in a module below stands for the same as one dot less above.
pub proof fn lemma_each_dot_goes_up(
    package: Seq<Seq<char>>,
    name: Seq<char>,
    level: nat,
    parts: Seq<Seq<char>>,
)
    requires
        level > 0,
    ensures
        absolute_import(package.push(name), level + 1, parts) == absolute_import(
            package,
            level,
            parts,
        ),
{
    let below = package.push(name);
    if level <= package.len() {
        assert(below.take(below.len() - (level + 1)) =~= package.take(package.len() - level));
    }
}

/// A single dot stands for the package of the module, and an import without dots for itself.
pub proof fn lemma_single_dot_is_the_package(
    package: Seq<Seq<char>>,
    name: Seq<char>,
    parts: Seq<Seq<char>>,
)
    ensures
        absolute_import(package.push(name), 1, parts) == Some(package + parts),
        absolute_import(package.push(name), 0, parts) == Some(parts),
{
    let below = package.push(name);
    assert(below.take(below.len() - 1) =~= package);
}

} // verus!
