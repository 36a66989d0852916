# rtest

The logic of a Python test runner, verified with Verus: which tests a project has, what their names
are, and what a run of the tool does with them. Test files are parsed, never imported.

- `src/` is the library. Every item is verified; the few calls into other crates stand behind
  small items whose contracts are stated and documented where they are made.
- `tests/` runs the library on concrete projects and command lines.
- `app/` is the tool around the library: the command line, the file system, worker processes and
  the Python bindings.

## The library

| Module | What it holds |
|--------|---------------|
| `python_discovery::parser`, `syntax` | Python source as plain syntax trees |
| `python_discovery::cases`, `decorators`, `numbers` | parametrized tests, their cases and IDs |
| `python_discovery::constants`, `constant_resolver` | constants of modules, classes and imports |
| `python_discovery::discovery`, `visitor`, `inline_visitor`, `semantic_analyzer` | the tests of a file, with inheritance across modules |
| `python_discovery::pattern` | the names that tests have |
| `python_discovery::module_resolver` | where modules are looked for, and what was loaded |
| `collection`, `collection_integration` | the collection tree, its items, errors and warnings |
| `cli`, `config`, `runner` | arguments, project settings, and the course of a run |
| `native_runner` | files dealt out to workers, their results and the summary |
| `strings`, `ordered`, `table` | texts, sorted lists and tables |

What holds beyond single functions stands in the public proof functions of `case_laws`,
`constant_laws`, `discovery_laws`, `inheritance_laws`, `loading_laws`, `waiting`,
`collection_laws`, and beside the functions in `native_runner`, `ordered`, `strings`, `table`,
`runner`, `module_resolver`, `pattern` and `collection::utils`.

Discovery reads no files. Where it depends on a module that has not been loaded, it names that
module; once it is loaded, discovery is repeated. It never asks for a module twice.
