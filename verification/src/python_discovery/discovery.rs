//! Test discovery types and main entry points, and the steps that the discovery strategies share.

use crate::collection::error::{CollectionResult, ErrorView};
use crate::python_discovery::cases::{
    combine_and_expand_specs, combined_expansion, CasesExpansion, ExpansionView, InfoView,
    MethodCasesInfo,
};
use crate::python_discovery::constant_resolver::{ConstantResolver, ResolverView};
use crate::python_discovery::decorators::{
    decorators_info, parse_decorators_to_specs, resolver_view,
};
use crate::python_discovery::inline_visitor::{inline_tests_of, module_inline_tests};
use crate::python_discovery::module_resolver::{
    load_views, parse_error, parse_failure, ModuleLoad,
};
use crate::python_discovery::parser::{parse, parse_result};
use crate::python_discovery::pattern::{any_accepts, matches_any};
use crate::python_discovery::semantic_analyzer::{
    Discovery, DiscoveryView, PassView, SemanticTestDiscovery,
};
use crate::python_discovery::syntax::{
    stmt_views, ClassDef, ClassView, FunctionView, PyStmt, StmtView,
};
use crate::strings::{
    chars_of, copy, copy_all, ends_with, holds, same, str_text, string_of, text_of, texts,
};
use vstd::prelude::*;

verus! {

// ---------------------------------------------------------------------------------------------
// Types
// ---------------------------------------------------------------------------------------------
/// Information about a discovered test
#[derive(Debug)]
pub struct TestInfo {
    pub name: String,
    pub line: usize,
    pub is_method: bool,
    pub class_name: Option<String>,
    /// Whether this test originated from a parametrized decorator
    pub is_parametrized: bool,
    /// Whether this test has parametrize values with uncertain formatting
    /// (e.g., attribute accesses like Enum.VALUE where pytest's ID formatting varies)
    pub has_uncertain_params: bool,
    /// The cases that the test's decorators expand to
    pub cases_expansion: CasesExpansion,
}

/// View of a [`TestInfo`].
pub ghost struct TestView {
    pub name: Seq<char>,
    pub line: nat,
    pub is_method: bool,
    pub class_name: Option<Seq<char>>,
    pub is_parametrized: bool,
    pub has_uncertain_params: bool,
    pub cases_expansion: ExpansionView,
}

impl TestInfo {
    pub open spec fn view(&self) -> TestView {
        TestView {
            name: self.name@,
            line: self.line as nat,
            is_method: self.is_method,
            class_name: text_of(self.class_name),
            is_parametrized: self.is_parametrized,
            has_uncertain_params: self.has_uncertain_params,
            cases_expansion: self.cases_expansion@,
        }
    }
}

/// The views of a list of tests.
pub open spec fn test_views(list: Seq<TestInfo>) -> Seq<TestView> {
    Seq::new(list.len(), |i: int| list[i].view())
}

/// Configuration for test discovery
#[derive(Debug)]
pub struct TestDiscoveryConfig {
    pub python_classes: Vec<String>,
    pub python_functions: Vec<String>,
}

/// View of a [`TestDiscoveryConfig`].
pub ghost struct ConfigView {
    pub python_classes: Seq<Seq<char>>,
    pub python_functions: Seq<Seq<char>>,
}

impl ConfigView {
    /// A function of that name is a test.
    pub open spec fn is_test_function(self, name: Seq<char>) -> bool {
        any_accepts(self.python_functions, name)
    }

    /// A class of that name holds tests.
    pub open spec fn is_test_class(self, name: Seq<char>) -> bool {
        any_accepts(self.python_classes, name)
    }
}

/// A list of one string.
pub fn one_string(s: &str) -> (r: Vec<String>)
    ensures
        texts(r@) == seq![s@],
{
    let mut r: Vec<String> = Vec::new();
    r.push(copy(s));
    assert(texts(r@) =~= seq![s@]);
    r
}

impl Default for TestDiscoveryConfig {
    fn default() -> (r: Self)
        ensures
            r@ == (ConfigView {
                python_classes: seq!["Test*"@],
                python_functions: seq!["test*"@],
            }),
    {
        TestDiscoveryConfig {
            python_classes: one_string("Test*"),
            python_functions: one_string("test*"),
        }
    }
}

impl Clone for TestDiscoveryConfig {
    fn clone(&self) -> (r: Self)
        ensures
            r@ == self@,
    {
        TestDiscoveryConfig {
            python_classes: copy_all(self.python_classes.as_slice()),
            python_functions: copy_all(self.python_functions.as_slice()),
        }
    }
}

impl TestDiscoveryConfig {
    pub open spec fn view(&self) -> ConfigView {
        ConfigView {
            python_classes: texts(self.python_classes@),
            python_functions: texts(self.python_functions@),
        }
    }

    /// Whether a function of that name is a test.
    pub fn is_test_function(&self, name: &str) -> (r: bool)
        ensures
            r == self@.is_test_function(name@),
    {
        matches_any(self.python_functions.as_slice(), name)
    }

    /// Whether a class of that name holds tests.
    pub fn is_test_class(&self, name: &str) -> (r: bool)
        ensures
            r == self@.is_test_class(name@),
    {
        matches_any(self.python_classes.as_slice(), name)
    }
}

/// Lightweight test method information for caching.
///
/// Stores method-level specs (not expanded) so they can be combined with
/// child class decorators during inheritance.
#[derive(Debug)]
pub struct TestMethodInfo {
    pub name: String,
    pub line: usize,
    /// Method-level decorator specs (not yet combined with class decorators)
    pub method_specs: MethodCasesInfo,
}

/// View of a [`TestMethodInfo`].
pub ghost struct MethodView {
    pub name: Seq<char>,
    pub line: nat,
    pub method_specs: InfoView,
}

impl TestMethodInfo {
    pub open spec fn view(&self) -> MethodView {
        MethodView {
            name: self.name@,
            line: self.line as nat,
            method_specs: self.method_specs@,
        }
    }

    /// Information with the same contents.
    pub fn copy(&self) -> (r: TestMethodInfo)
        ensures
            r@ == self@,
    {
        TestMethodInfo {
            name: copy(self.name.as_str()),
            line: self.line,
            method_specs: self.method_specs.copy(),
        }
    }
}

/// The views of a list of methods.
pub open spec fn method_views(list: Seq<TestMethodInfo>) -> Seq<MethodView> {
    Seq::new(list.len(), |i: int| list[i].view())
}

// ---------------------------------------------------------------------------------------------
// Classes
// ---------------------------------------------------------------------------------------------
/// The statement defines a constructor.
pub open spec fn defines_init(stmt: StmtView) -> bool {
    match stmt {
        StmtView::FunctionDef(func) => func.name == "__init__"@,
        _ => false,
    }
}

/// The class has a constructor of its own.
pub open spec fn has_init(class: ClassView) -> bool {
    exists|i: int| 0 <= i < class.body.len() && defines_init(#[trigger] class.body[i])
}

/// Whether a class has a constructor of its own.
pub fn class_has_init(class: &ClassDef) -> (r: bool)
    ensures
        r == has_init(class@),
{
    let ghost views = class@.body;
    let mut i: usize = 0;
    while i < class.body.len()
        invariant
            i <= class.body@.len(),
            views == class@.body,
            views == stmt_views(class.body@),
            forall|j: int| 0 <= j < i ==> !defines_init(#[trigger] views[j]),
        decreases class.body@.len() - i,
    {
        assert(views[i as int] == class.body@[i as int]@);
        if let PyStmt::FunctionDef(func) = &class.body[i] {
            if same(func.name.as_str(), "__init__") {
                assert(defines_init(views[i as int]));
                return true;
            }
        }
        i = i + 1;
    }
    false
}

/// The statement, where it defines a test function.
pub open spec fn test_function(config: ConfigView, stmt: StmtView) -> Option<FunctionView> {
    match stmt {
        StmtView::FunctionDef(func) => if config.is_test_function(func.name) {
            Some(func)
        } else {
            None
        },
        _ => None,
    }
}

/// `done` followed by the test methods among the statements from `i` on. The error is a module
/// that has to be loaded first.
pub open spec fn methods_from(
    config: ConfigView,
    resolver: Option<ResolverView>,
    class: Seq<char>,
    body: Seq<StmtView>,
    i: int,
    done: Seq<MethodView>,
) -> Result<Seq<MethodView>, Seq<Seq<char>>>
    decreases body.len() - i,
{
    if i < 0 || i >= body.len() {
        Ok(done)
    } else {
        match test_function(config, body[i]) {
            None => methods_from(config, resolver, class, body, i + 1, done),
            Some(func) => match decorators_info(func.decorators, resolver, Some(class)) {
                Err(module) => Err(module),
                Ok(method_specs) => methods_from(
                    config,
                    resolver,
                    class,
                    body,
                    i + 1,
                    done.push(
                        MethodView { name: func.name, line: func.offset as nat, method_specs },
                    ),
                ),
            },
        }
    }
}

/// The test methods of a class.
pub open spec fn class_methods(
    config: ConfigView,
    resolver: Option<ResolverView>,
    class: ClassView,
) -> Result<Seq<MethodView>, Seq<Seq<char>>> {
    methods_from(config, resolver, class.name, class.body, 0, seq![])
}

/// Collect test methods from a class (method-level specs only, not expanded).
///
/// This stores only method-level decorator specs, allowing them to be combined
/// with child class decorators during inheritance resolution.
pub fn collect_test_methods(
    config: &TestDiscoveryConfig,
    class_def: &ClassDef,
    resolver: Option<&ConstantResolver>,
) -> (r: Result<Vec<TestMethodInfo>, Vec<String>>)
    ensures
        match r {
            Ok(methods) => class_methods(config@, resolver_view(resolver), class_def@) == Ok::<
                Seq<MethodView>,
                Seq<Seq<char>>,
            >(method_views(methods@)),
            Err(module) => class_methods(config@, resolver_view(resolver), class_def@) == Err::<
                Seq<MethodView>,
                Seq<Seq<char>>,
            >(texts(module@)),
        },
{
    let ghost known = resolver_view(resolver);
    let ghost body = class_def@.body;
    let ghost whole = class_methods(config@, known, class_def@);
    let mut methods: Vec<TestMethodInfo> = Vec::new();
    assert(method_views(methods@) =~= Seq::<MethodView>::empty());
    let mut i: usize = 0;
    while i < class_def.body.len()
        invariant
            i <= class_def.body@.len(),
            known == resolver_view(resolver),
            body == stmt_views(class_def.body@),
            whole == class_methods(config@, known, class_def@),
            whole == methods_from(
                config@,
                known,
                class_def.name@,
                body,
                i as int,
                method_views(methods@),
            ),
        decreases class_def.body@.len() - i,
    {
        assert(body[i as int] == class_def.body@[i as int]@);
        if let PyStmt::FunctionDef(func) = &class_def.body[i] {
            if config.is_test_function(func.name.as_str()) {
                let method_specs = parse_decorators_to_specs(
                    func.decorators.as_slice(),
                    resolver,
                    Some(class_def.name.as_str()),
                )?;
                let method = TestMethodInfo {
                    name: copy(func.name.as_str()),
                    line: func.offset as usize,
                    method_specs,
                };
                let ghost before = methods@;
                let ghost added = method@;
                methods.push(method);
                assert(method_views(methods@) =~= method_views(before).push(added));
            }
        }
        i = i + 1;
    }
    Ok(methods)
}

/// The names of the test methods that the statements define.
pub open spec fn test_names(config: ConfigView, body: Seq<StmtView>) -> Seq<Seq<char>>
    decreases body.len(),
{
    if body.len() == 0 {
        seq![]
    } else {
        match test_function(config, body.last()) {
            Some(func) => test_names(config, body.drop_last()).push(func.name),
            None => test_names(config, body.drop_last()),
        }
    }
}

/// The names of the test methods defined directly in a class.
pub fn own_method_names(config: &TestDiscoveryConfig, class_def: &ClassDef) -> (r: Vec<String>)
    ensures
        texts(r@) == test_names(config@, class_def@.body),
{
    let ghost body = class_def@.body;
    let mut r: Vec<String> = Vec::new();
    let mut i: usize = 0;
    proof {
        assert(body.take(0) =~= Seq::<StmtView>::empty());
        assert(texts(r@) =~= Seq::<Seq<char>>::empty());
    }
    while i < class_def.body.len()
        invariant
            i <= class_def.body@.len(),
            body == stmt_views(class_def.body@),
            texts(r@) == test_names(config@, body.take(i as int)),
        decreases class_def.body@.len() - i,
    {
        proof {
            assert(body.take(i + 1).drop_last() =~= body.take(i as int));
            assert(body.take(i + 1).last() == class_def.body@[i as int]@);
        }
        if let PyStmt::FunctionDef(func) = &class_def.body[i] {
            if config.is_test_function(func.name.as_str()) {
                let ghost before = r@;
                r.push(copy(func.name.as_str()));
                assert(texts(r@) =~= texts(before).push(func.name@));
            }
        }
        i = i + 1;
    }
    assert(body.take(body.len() as int) =~= body);
    r
}

/// A test with these cases.
pub open spec fn test_of(
    name: Seq<char>,
    line: nat,
    class_name: Option<Seq<char>>,
    cases: ExpansionView,
) -> TestView {
    TestView {
        name,
        line,
        is_method: class_name is Some,
        class_name,
        is_parametrized: !(cases is NotDecorated),
        has_uncertain_params: cases is CannotExpand,
        cases_expansion: cases,
    }
}

/// A test with these cases.
pub fn make_test(
    name: &str,
    line: usize,
    class_name: Option<&str>,
    cases_expansion: CasesExpansion,
) -> (r: TestInfo)
    ensures
        r@ == test_of(name@, line as nat, str_text(class_name), cases_expansion@),
{
    let (is_parametrized, has_uncertain_params) = match &cases_expansion {
        CasesExpansion::NotDecorated => (false, false),
        CasesExpansion::Expanded(_) => (true, false),
        CasesExpansion::CannotExpand(_) => (true, true),
    };
    TestInfo {
        name: copy(name),
        line,
        is_method: class_name.is_some(),
        class_name: match class_name {
            Some(class) => Some(copy(class)),
            None => None,
        },
        is_parametrized,
        has_uncertain_params,
        cases_expansion,
    }
}

/// `done` followed by the tests that a class inherits: the methods from `i` on, except those it
/// defines itself. An inherited method gets the decorators of the inheriting class.
pub open spec fn inherited_from(
    methods: Seq<MethodView>,
    i: int,
    own: Seq<Seq<char>>,
    class_specs: InfoView,
    class: Seq<char>,
    done: Seq<TestView>,
) -> Seq<TestView>
    decreases methods.len() - i,
{
    if i < 0 || i >= methods.len() {
        done
    } else if own.contains(methods[i].name) {
        inherited_from(methods, i + 1, own, class_specs, class, done)
    } else {
        inherited_from(
            methods,
            i + 1,
            own,
            class_specs,
            class,
            done.push(
                test_of(
                    methods[i].name,
                    methods[i].line,
                    Some(class),
                    combined_expansion(class_specs, methods[i].method_specs),
                ),
            ),
        )
    }
}

/// Adds the tests that a class inherits from a base class with these methods.
pub fn push_inherited(
    tests: &mut Vec<TestInfo>,
    methods: &[TestMethodInfo],
    own: &[String],
    class_specs: &MethodCasesInfo,
    class_name: &str,
)
    ensures
        test_views(final(tests)@) == inherited_from(
            method_views(methods@),
            0,
            texts(own@),
            class_specs@,
            class_name@,
            test_views(old(tests)@),
        ),
{
    let ghost views = method_views(methods@);
    let ghost start = test_views(tests@);
    let mut i: usize = 0;
    while i < methods.len()
        invariant
            i <= methods@.len(),
            views == method_views(methods@),
            inherited_from(views, 0, texts(own@), class_specs@, class_name@, start)
                == inherited_from(
                views,
                i as int,
                texts(own@),
                class_specs@,
                class_name@,
                test_views(tests@),
            ),
        decreases methods@.len() - i,
    {
        assert(views[i as int] == methods@[i as int]@);
        if !holds(own, methods[i].name.as_str()) {
            let test = make_test(
                methods[i].name.as_str(),
                methods[i].line,
                Some(class_name),
                combine_and_expand_specs(class_specs, &methods[i].method_specs),
            );
            let ghost before = tests@;
            let ghost added = test@;
            tests.push(test);
            assert(test_views(tests@) =~= test_views(before).push(added));
        }
        i = i + 1;
    }
}

/// `done` followed by the tests that a class defines in the statements from `i` on.
pub open spec fn own_tests_from(
    config: ConfigView,
    resolver: Option<ResolverView>,
    class: Seq<char>,
    class_specs: InfoView,
    body: Seq<StmtView>,
    i: int,
    done: Seq<TestView>,
) -> Result<Seq<TestView>, Seq<Seq<char>>>
    decreases body.len() - i,
{
    if i < 0 || i >= body.len() {
        Ok(done)
    } else {
        match test_function(config, body[i]) {
            None => own_tests_from(config, resolver, class, class_specs, body, i + 1, done),
            Some(func) => match decorators_info(func.decorators, resolver, Some(class)) {
                Err(module) => Err(module),
                Ok(method_specs) => own_tests_from(
                    config,
                    resolver,
                    class,
                    class_specs,
                    body,
                    i + 1,
                    done.push(
                        test_of(
                            func.name,
                            func.offset as nat,
                            Some(class),
                            combined_expansion(class_specs, method_specs),
                        ),
                    ),
                ),
            },
        }
    }
}

/// Adds the tests that a class defines itself.
pub fn push_own(
    tests: Vec<TestInfo>,
    config: &TestDiscoveryConfig,
    class_def: &ClassDef,
    class_specs: &MethodCasesInfo,
    resolver: Option<&ConstantResolver>,
) -> (r: Result<Vec<TestInfo>, Vec<String>>)
    ensures
        match r {
            Ok(list) => own_tests_from(
                config@,
                resolver_view(resolver),
                class_def.name@,
                class_specs@,
                class_def@.body,
                0,
                test_views(tests@),
            ) == Ok::<Seq<TestView>, Seq<Seq<char>>>(test_views(list@)),
            Err(module) => own_tests_from(
                config@,
                resolver_view(resolver),
                class_def.name@,
                class_specs@,
                class_def@.body,
                0,
                test_views(tests@),
            ) == Err::<Seq<TestView>, Seq<Seq<char>>>(texts(module@)),
        },
{
    let ghost known = resolver_view(resolver);
    let ghost body = class_def@.body;
    let ghost start = test_views(tests@);
    let ghost whole = own_tests_from(
        config@,
        known,
        class_def.name@,
        class_specs@,
        body,
        0,
        start,
    );
    let mut list = tests;
    let mut i: usize = 0;
    while i < class_def.body.len()
        invariant
            i <= class_def.body@.len(),
            known == resolver_view(resolver),
            body == stmt_views(class_def.body@),
            start == test_views(tests@),
            whole == own_tests_from(
                config@,
                known,
                class_def.name@,
                class_specs@,
                body,
                0,
                start,
            ),
            whole == own_tests_from(
                config@,
                known,
                class_def.name@,
                class_specs@,
                body,
                i as int,
                test_views(list@),
            ),
        decreases class_def.body@.len() - i,
    {
        assert(body[i as int] == class_def.body@[i as int]@);
        if let PyStmt::FunctionDef(func) = &class_def.body[i] {
            if config.is_test_function(func.name.as_str()) {
                let method_specs = parse_decorators_to_specs(
                    func.decorators.as_slice(),
                    resolver,
                    Some(class_def.name.as_str()),
                )?;
                let test = make_test(
                    func.name.as_str(),
                    func.offset as usize,
                    Some(class_def.name.as_str()),
                    combine_and_expand_specs(class_specs, &method_specs),
                );
                let ghost before = list@;
                let ghost added = test@;
                list.push(test);
                assert(test_views(list@) =~= test_views(before).push(added));
            }
        }
        i = i + 1;
    }
    Ok(list)
}

// ---------------------------------------------------------------------------------------------
// Module paths
// ---------------------------------------------------------------------------------------------
/// The module name that a path component stands for: a source file without its extension, where
/// `__init__.py` stands for none, and a directory by its name.
pub open spec fn component_module(name: Seq<char>, file: Seq<char>) -> Option<Seq<char>> {
    if ".py"@.is_suffix_of(name) && name == file {
        let stem = name.take(name.len() - ".py"@.len());
        if stem == "__init__"@ {
            None
        } else {
            Some(stem)
        }
    } else {
        Some(name)
    }
}

/// The module names of the components, in order.
pub open spec fn component_modules(components: Seq<Seq<char>>, file: Seq<char>) -> Seq<Seq<char>>
    decreases components.len(),
{
    if components.len() == 0 {
        seq![]
    } else {
        let before = component_modules(components.drop_last(), file);
        match component_module(components.last(), file) {
            Some(name) => before.push(name),
            None => before,
        }
    }
}

/// The module path of a file.
pub open spec fn file_module_path(components: Seq<Seq<char>>) -> Seq<Seq<char>> {
    component_modules(components, components.last())
}

/// Convert a file path to a module path.
///
/// `components` are the names on the path from the root directory to the file; the last is that
/// of the file.
pub fn path_to_module_path(components: &[String]) -> (r: Vec<String>)
    ensures
        texts(r@) == file_module_path(texts(components@)),
{
    let ghost all = texts(components@);
    let mut r: Vec<String> = Vec::new();
    let n = components.len();
    let mut i: usize = 0;
    proof {
        reveal_strlit(".py");
        assert(all.take(0) =~= Seq::<Seq<char>>::empty());
        assert(texts(r@) =~= Seq::<Seq<char>>::empty());
    }
    while i < n
        invariant
            i <= n == components@.len(),
            all == texts(components@),
            ".py"@.len() == 3,
            texts(r@) == component_modules(all.take(i as int), all.last()),
        decreases n - i,
    {
        let name = &components[i];
        proof {
            assert(all.take(i + 1).drop_last() =~= all.take(i as int));
            assert(all.take(i + 1).last() == name@);
            assert(all.last() == components@[n - 1]@);
        }
        let ghost before = r@;
        if ends_with(name.as_str(), ".py") && same(name.as_str(), components[n - 1].as_str()) {
            let chars = chars_of(name.as_str());
            let stem = string_of(chars.as_slice(), 0, chars.len() - 3);
            assert(stem@ =~= name@.take(name@.len() - 3));
            if !same(stem.as_str(), "__init__") {
                let ghost added = stem@;
                r.push(stem);
                assert(texts(r@) =~= texts(before).push(added));
            }
        } else {
            r.push(copy(name.as_str()));
            assert(texts(r@) =~= texts(before).push(name@));
        }
        i = i + 1;
    }
    assert(all.take(n as int) =~= all);
    r
}

// ---------------------------------------------------------------------------------------------
// Entry points
// ---------------------------------------------------------------------------------------------
/// Parse a Python file and discover test functions/methods
pub fn discover_tests(path: &str, source: &str, config: &TestDiscoveryConfig) -> (r:
    CollectionResult<Vec<TestInfo>>)
    ensures
        match parse_result(source@) {
            Err(message) => r matches Err(error) && error@ == parse_failure(path@, message),
            Ok(stmts) => r matches Ok(tests) && test_views(tests@) == module_inline_tests(
                config@,
                stmts,
            ),
        },
{
    match parse(source) {
        Err(message) => Err(parse_error(path, message.as_str())),
        Ok(module) => Ok(inline_tests_of(config, &module)),
    }
}

/// Discover tests with cross-module inheritance support, given the modules that have been loaded so
/// far.
///
/// `components` are the names on the path from the root directory to the file.
pub fn discover_tests_with_inheritance(
    path: &str,
    source: &str,
    config: &TestDiscoveryConfig,
    components: &[String],
    loads: &[ModuleLoad],
) -> (r: CollectionResult<Discovery>)
    ensures
        ({
            let pass = PassView { config: config@, loads: load_views(loads@) };
            let mod_path = file_module_path(texts(components@));
            match parse_result(source@) {
                Err(message) => r matches Err(error) && error@ == parse_failure(path@, message),
                Ok(stmts) => match r {
                    Ok(found) => pass.discovered(path@, mod_path, stmts) == Ok::<
                        DiscoveryView,
                        ErrorView,
                    >(found@),
                    Err(error) => pass.discovered(path@, mod_path, stmts) == Err::<
                        DiscoveryView,
                        ErrorView,
                    >(error@),
                },
            }
        }),
{
    let mod_path = path_to_module_path(components);
    let discovery = SemanticTestDiscovery::new(config.clone());
    discovery.discover_tests(path, source, mod_path.as_slice(), loads)
}

} // verus!
