use rtest::collection::error::CollectionError;
use rtest::python_discovery::module_resolver::{
    find_load, get_possible_paths_in_root, resolve_relative_import, try_resolve_in_search_path,
    FoundSource,
};
use rtest::python_discovery::{ModuleResolver, ParsedModule};

fn names(list: &[&str]) -> Vec<String> {
    list.iter().map(|s| s.to_string()).collect()
}

/// Loads a module from a project that is given by its files.
fn load<'a>(
    resolver: &'a mut ModuleResolver,
    files: &[(&str, &str)],
    module: &[&str],
) -> Result<&'a ParsedModule, CollectionError> {
    let module = names(module);
    let mut found = None;
    if let Ok(places) = resolver.resolve_with_search_paths(&module) {
        let paths: Vec<String> = places.iter().map(|place| place.join("/")).collect();
        let exists: Vec<bool> = paths
            .iter()
            .map(|path| files.iter().any(|(name, _)| name == path))
            .collect();
        if let Some(at) = try_resolve_in_search_path(&exists) {
            let (_, contents) = files.iter().find(|(name, _)| *name == paths[at]).unwrap();
            found = Some(FoundSource {
                path: paths[at].clone(),
                contents: Ok(contents.to_string()),
            });
        }
    }
    resolver.resolve_and_load(&module, found)
}

#[test]
fn test_module_path_to_file_path() {
    let files = [
        ("root/tests/test_example.py", "# test"),
        ("root/package/__init__.py", ""),
        ("root/package/subpackage/__init__.py", ""),
        ("root/package/module.py", "# module"),
    ];
    let mut resolver = ModuleResolver::new(Vec::new(), "root").unwrap();

    // Test simple module
    let path = load(&mut resolver, &files, &["tests", "test_example"]).unwrap();
    assert_eq!(path.path, "root/tests/test_example.py");

    // Test package with __init__.py
    let path = load(&mut resolver, &files, &["package"]).unwrap();
    assert_eq!(path.path, "root/package/__init__.py");

    // Test module in package
    let path = load(&mut resolver, &files, &["package", "module"]).unwrap();
    assert_eq!(path.path, "root/package/module.py");

    // Test non-existent module
    assert!(load(&mut resolver, &files, &["nonexistent"]).is_err());
}

#[test]
fn test_resolve_and_load_cache_hit() {
    let files = [("root/cached_module.py", "x = 1\n")];
    let mut resolver = ModuleResolver::new(Vec::new(), "root").unwrap();

    // First call resolves from the files
    let first = load(&mut resolver, &files, &["cached_module"]).unwrap();
    assert_eq!(first.path, "root/cached_module.py");

    // Second call exercises the cache-hit path
    let second = resolver
        .resolve_and_load(&names(&["cached_module"]), None)
        .unwrap();
    assert_eq!(second.path, "root/cached_module.py");
    assert_eq!(second.source, "x = 1\n");
    assert_eq!(resolver.loads.len(), 1);
}

#[test]
fn test_sys_path_resolution() {
    let files = [("root/test_module.py", "# test module")];
    let mut resolver = ModuleResolver::new(Vec::new(), "root").unwrap();

    // Should be able to resolve the module
    let result = load(&mut resolver, &files, &["test_module"]);
    match result {
        Ok(parsed) => {
            assert_eq!(parsed.path, "root/test_module.py");
        }
        Err(error) => panic!("unexpected {:?}", error),
    }
}

#[test]
fn environment_paths_come_first() {
    let files = [("lib/m.py", "a = 1"), ("root/m.py", "a = 2")];
    let mut resolver = ModuleResolver::new(names(&["lib"]), "root").unwrap();
    assert_eq!(
        load(&mut resolver, &files, &["m"]).unwrap().path,
        "lib/m.py"
    );
    assert_eq!(resolver.search_paths, vec!["lib", "root"]);
}

#[test]
fn modules_have_two_places_in_each_root() {
    assert_eq!(
        get_possible_paths_in_root(&names(&["a", "b"]), "r"),
        vec![
            names(&["r", "a", "b.py"]),
            names(&["r", "a", "b", "__init__.py"]),
        ]
    );
    assert!(get_possible_paths_in_root(&[], "r").is_empty());
}

#[test]
fn modules_that_cannot_be_loaded() {
    let mut resolver = ModuleResolver::new(Vec::new(), "root").unwrap();
    let message = |error: CollectionError| match error {
        CollectionError::ImportError(text) => text,
        other => panic!("unexpected {:?}", other),
    };
    assert_eq!(
        message(resolver.resolve_and_load(&[], None).unwrap_err()),
        "Empty module path"
    );
    assert_eq!(
        message(resolver.resolve_and_load(&names(&["sys", "path"]), None).unwrap_err()),
        "Cannot resolve built-in module 'sys.path' - inheritance from built-in modules is not supported"
    );
    assert_eq!(
        message(resolver.resolve_and_load(&names(&["a", "b"]), None).unwrap_err()),
        "Could not find module: a.b"
    );
    let unreadable = FoundSource {
        path: "root/c.py".to_string(),
        contents: Err("no access".to_string()),
    };
    assert!(matches!(
        resolver.resolve_and_load(&names(&["c"]), Some(unreadable)),
        Err(CollectionError::IoError(text)) if text == "no access"
    ));
    let broken = FoundSource {
        path: "root/d.py".to_string(),
        contents: Ok("def (".to_string()),
    };
    assert!(matches!(
        resolver.resolve_and_load(&names(&["d"]), Some(broken)),
        Err(CollectionError::ParseError(text)) if text.starts_with("Failed to parse root/d.py: ")
    ));
    assert_eq!(resolver.loads.len(), 5);

    // A module that could not be loaded is tried anew.
    let mended = FoundSource {
        path: "root/d.py".to_string(),
        contents: Ok("x = 1".to_string()),
    };
    assert!(resolver
        .resolve_and_load(&names(&["d"]), Some(mended))
        .is_ok());
    assert_eq!(resolver.loads.len(), 5);
    assert!(find_load(&resolver.loads, &names(&["d"])).is_some());
    assert!(find_load(&resolver.loads, &names(&["e"])).is_none());

    let fresh = resolver.with_search_paths();
    assert_eq!(fresh.search_paths, vec!["root"]);
    assert!(fresh.loads.is_empty());
    resolver.clear_cache();
    assert!(resolver.loads.is_empty());
}

#[test]
fn relative_imports() {
    let current = names(&["pkg", "sub", "mod"]);
    assert_eq!(
        resolve_relative_import(&current, 0, &names(&["x"])),
        Some(names(&["x"]))
    );
    assert_eq!(
        resolve_relative_import(&current, 1, &names(&["x"])),
        Some(names(&["pkg", "sub", "x"]))
    );
    assert_eq!(
        resolve_relative_import(&current, 2, &[]),
        Some(names(&["pkg"]))
    );
    assert_eq!(resolve_relative_import(&current, 4, &names(&["x"])), None);
}
