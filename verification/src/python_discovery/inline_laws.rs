//! What holds of the tests that are found in a single module, with their parameters in their names.

use crate::python_discovery::ancestry_laws::{
    defines_function, is_class, is_last_class, lemma_constructor,
};
use crate::python_discovery::cases::{value_id, ValueView};
use crate::python_discovery::constants::base_exprs;
use crate::python_discovery::discovery::{has_init, ConfigView, TestView};
use crate::python_discovery::inline_visitor::{
    any_uncertain, case_params, combination_ids, explicit_ids_from, has_special, init_named,
    inline_base, inline_cache, inline_inherited, inline_skips, inline_tests, is_uncertain,
    method_tests, module_inline_tests, moved_to, named_with_init, param_names_of, param_of,
    param_sets, parametrizations, parametrize_of, set_ids, set_parts, tests_of, trimmed_pieces,
    InlineClassView, ParamView, ParametrizeView,
};
use crate::python_discovery::numbers::lemma_decimal_stays;
use crate::python_discovery::parametrize_laws::{
    are_strings, denotes, is_blank, is_numbered, is_padded, is_word, lemma_ids_of_literals,
    lemma_strings_from, member_of, shows,
};
use crate::python_discovery::syntax::{ExprView, FunctionView, KeywordView, NumberView, StmtView};
use crate::strings::{
    int_text, joined, lemma_digits_of_number, lemma_joined_is_split_back, lemma_trimmed, nat_text,
    pieces, trimmed,
};
use crate::table::{entry, lemma_entry_after_insert, with_entry};
use vstd::arithmetic::div_mod::lemma_fundamental_div_mod_converse;
use vstd::prelude::*;

verus! {

// ---------------------------------------------------------------------------------------------
// Values
// ---------------------------------------------------------------------------------------------
/// The literal is written as its value is: a whole number by its decimal digits.
pub open spec fn is_plainly_written(e: ExprView) -> bool {
    match e {
        ExprView::NumberLiteral(NumberView::Int { small: Some(n), text }) => n >= 0 && text
            == nat_text(n as nat),
        ExprView::NumberLiteral(NumberView::Int { small: None, .. }) => false,
        ExprView::StringLiteral(s) => !has_special(s),
        ExprView::UnaryOp { operand, .. } => match *operand {
            ExprView::NumberLiteral(NumberView::Int { small: Some(n), text }) => n > 0 && text
                == nat_text(n as nat),
            ExprView::NumberLiteral(NumberView::Float { .. }) => true,
            _ => false,
        },
        _ => true,
    }
}

/// A literal is shown by the text of its value. It is the text that it has among the values of a
/// decorator elsewhere.
pub proof fn lemma_literals_are_shown(e: ExprView, value: ValueView)
    requires
        denotes(e, value),
        is_plainly_written(e),
    ensures
        param_of(e) == ParamView::Simple(value_id(value)),
        shows(value, param_of(e)->Simple_0),
{
    lemma_ids_of_literals(value);
    match e {
        ExprView::NumberLiteral(NumberView::Int { small: Some(n), text }) => {
            lemma_decimal_stays(n as nat);
        },
        ExprView::UnaryOp { operand, .. } => {
            if let ExprView::NumberLiteral(NumberView::Int { small: Some(n), text }) = *operand {
                lemma_decimal_stays(n as nat);
                assert(param_of(*operand) == ParamView::Simple(nat_text(n as nat)));
                assert(int_text(-(n as int)) == seq!['-'] + nat_text(n as nat));
            } else {
                assert(param_of(*operand) is Simple);
            }
        },
        _ => {},
    }
}

/// The expressions are literals with these values, plainly written.
pub open spec fn all_written(elts: Seq<ExprView>, values: Seq<ValueView>) -> bool {
    elts.len() == values.len() && forall|i: int|
        0 <= i < elts.len() ==> denotes(#[trigger] elts[i], values[i]) && is_plainly_written(
            elts[i],
        )
}

/// The texts of values.
pub open spec fn ids_of_values(values: Seq<ValueView>) -> Seq<Seq<char>> {
    Seq::new(values.len(), |i: int| value_id(values[i]))
}

// ---------------------------------------------------------------------------------------------
// Decorators
// ---------------------------------------------------------------------------------------------
/// `@pytest.mark.parametrize(names, values)`.
pub open spec fn parametrize(names: ExprView, values: ExprView) -> ExprView {
    ExprView::Call {
        func: Box::new(
            member_of(member_of(ExprView::Name("pytest"@), "mark"@), "parametrize"@),
        ),
        args: seq![names, values],
        keywords: seq![],
    }
}

/// The texts are these names, with blanks around them or without.
pub open spec fn are_padded(padded: Seq<Seq<char>>, names: Seq<Seq<char>>) -> bool {
    padded.len() == names.len() && forall|i: int|
        #![trigger padded[i]]
        0 <= i < names.len() ==> is_word(names[i]) && (padded[i] == names[i] || is_padded(
            padded[i],
            names[i],
        ))
}

proof fn lemma_one_name(name: Seq<char>)
    requires
        is_word(name),
    ensures
        param_names_of(ExprView::StringLiteral(name)) == Some(seq![name]),
{
    lemma_names(seq![name], seq![name]);
    assert(joined(seq![name], seq![',']) == name);
}

proof fn lemma_names(names: Seq<Seq<char>>, padded: Seq<Seq<char>>)
    requires
        names.len() > 0,
        are_padded(padded, names),
    ensures
        param_names_of(ExprView::StringLiteral(joined(padded, seq![',']))) == Some(names),
{
    let text = joined(padded, seq![',']);
    assert forall|i: int| 0 <= i < padded.len() implies !(#[trigger] padded[i]).contains(',')
        && trimmed(padded[i]) == names[i] by {
        let n = names[i];
        if padded[i] == n {
            let none = Seq::<char>::empty();
            assert(none + n + none =~= n);
            assert(is_blank(none));
            assert(is_padded(padded[i], n));
        }
        let (b, a) = choose|before: Seq<char>, after: Seq<char>|
            is_blank(before) && is_blank(after) && padded[i] == #[trigger] (before + n + after);
        if padded[i].contains(',') {
            let k = choose|k: int| 0 <= k < padded[i].len() && padded[i][k] == ',';
            if k < b.len() {
                assert(b[k] == ',');
            } else if k < b.len() + n.len() {
                assert(n[k - b.len()] == ',');
            } else {
                assert(a[k - b.len() - n.len()] == ',');
            }
        }
        assert('!' <= n[0] <= '~');
        assert('!' <= n[n.len() - 1] <= '~');
        lemma_trimmed(b, n, a);
    }
    lemma_joined_is_split_back(padded, ',');
    assert(pieces(text, ',') == padded);
    assert(trimmed_pieces(text) =~= names);
}

/// A test with one argument and a list of literals is found once for each of them, in order, with
/// the text of the value in brackets behind its name.
pub proof fn lemma_one_argument(
    func: FunctionView,
    class: Option<Seq<char>>,
    name: Seq<char>,
    elts: Seq<ExprView>,
    values: Seq<ValueView>,
)
    requires
        is_word(name),
        all_written(elts, values),
        func.decorators == seq![
            parametrize(ExprView::StringLiteral(name), ExprView::List(elts)),
        ],
    ensures
        ({
            let tests = tests_of(func, class, seq![]);
            &&& tests.len() == values.len()
            &&& forall|i: int|
                0 <= i < values.len() ==> {
                    &&& (#[trigger] tests[i]).name == func.name + seq!['['] + value_id(values[i])
                        + seq![']']
                    &&& tests[i].class_name == class
                    &&& tests[i].is_parametrized
                    &&& !tests[i].has_uncertain_params
                }
        }),
{
    let e = func.decorators[0];
    lemma_one_name(name);
    let info = lemma_single(func, ExprView::StringLiteral(name), ExprView::List(elts), seq![name]);
    assert forall|i: int| 0 <= i < values.len() implies #[trigger] set_ids(info)[i] == value_id(
        values[i],
    ) && info.values[i] == seq![ParamView::Simple(value_id(values[i]))] by {
        assert(denotes(elts[i], values[i]) && is_plainly_written(elts[i]));
        lemma_literals_are_shown(elts[i], values[i]);
        let parts = set_parts(info.param_names, info.values[i], i as nat);
        assert(info.values[i] =~= seq![param_of(elts[i])]);
        assert(parts =~= seq![value_id(values[i])]);
        assert(joined(parts, "-"@) == value_id(values[i]));
    }
    let infos = seq![info];
    if any_uncertain(infos) {
        let (a, b, c) = choose|a: int, b: int, c: int|
            0 <= a < infos.len() && 0 <= b < infos[a].values.len() && 0 <= c
                < infos[a].values[b].len()
                && is_uncertain(#[trigger] infos[a].values[b][c]);
        assert(set_ids(info)[b] == value_id(values[b]));
    }
}

/// The only decorator of a test, as it is read.
proof fn lemma_single(
    func: FunctionView,
    names: ExprView,
    list: ExprView,
    param_names: Seq<Seq<char>>,
) -> (info: ParametrizeView)
    requires
        func.decorators == seq![parametrize(names, list)],
        param_names_of(names) == Some(param_names),
        param_sets(list, param_names.len()) is Some,
    ensures
        info.param_names == param_names,
        info.values == param_sets(list, param_names.len())->0,
        info.explicit_ids is None,
        parametrizations(func.decorators) == seq![info],
        parametrizations(func.decorators) + Seq::<ParametrizeView>::empty() == seq![info],
        combination_ids(seq![info]) == set_ids(info),
{
    let e = parametrize(names, list);
    let info = ParametrizeView {
        param_names,
        values: param_sets(list, param_names.len())->0,
        explicit_ids: None,
    };
    assert(seq![names, list][0] == names && seq![names, list][1] == list);
    assert(parametrize_of(e) == Some(info));
    assert(func.decorators.drop_last() =~= Seq::<ExprView>::empty());
    assert(parametrizations(func.decorators.drop_last()) =~= Seq::<ParametrizeView>::empty());
    assert(parametrizations(func.decorators) =~= seq![info]);
    assert(seq![info] + Seq::<ParametrizeView>::empty() =~= seq![info]);
    info
}

/// A test with several arguments and a list of tuples of literals is found once for each tuple, in
/// order, with the texts of the values, and dashes between them, in brackets behind its name.
pub proof fn lemma_several_arguments(
    func: FunctionView,
    class: Option<Seq<char>>,
    names: Seq<Seq<char>>,
    padded: Seq<Seq<char>>,
    tuples: Seq<Seq<ExprView>>,
    values: Seq<Seq<ValueView>>,
)
    requires
        names.len() > 1,
        are_padded(padded, names),
        tuples.len() == values.len(),
        forall|i: int|
            0 <= i < tuples.len() ==> all_written(#[trigger] tuples[i], values[i])
                && tuples[i].len() == names.len(),
        func.decorators == seq![
            parametrize(
                ExprView::StringLiteral(joined(padded, seq![','])),
                ExprView::List(Seq::new(tuples.len(), |i: int| ExprView::Tuple(tuples[i]))),
            ),
        ],
    ensures
        ({
            let tests = tests_of(func, class, seq![]);
            &&& tests.len() == values.len()
            &&& forall|i: int|
                0 <= i < values.len() ==> {
                    &&& (#[trigger] tests[i]).name == func.name + seq!['['] + joined(
                        ids_of_values(values[i]),
                        "-"@,
                    ) + seq![']']
                    &&& tests[i].class_name == class
                }
        }),
{
    let text = ExprView::StringLiteral(joined(padded, seq![',']));
    let elts = Seq::new(tuples.len(), |i: int| ExprView::Tuple(tuples[i]));
    lemma_names(names, padded);
    let info = lemma_single(func, text, ExprView::List(elts), names);
    assert forall|i: int| 0 <= i < values.len() implies #[trigger] set_ids(info)[i] == joined(
        ids_of_values(values[i]),
        "-"@,
    ) by {
        assert(all_written(tuples[i], values[i]));
        assert(info.values[i] == case_params(elts[i], names.len()));
        let parts = set_parts(info.param_names, info.values[i], i as nat);
        assert forall|k: int| 0 <= k < names.len() implies #[trigger] parts[k] == ids_of_values(
            values[i],
        )[k] by {
            assert(denotes(tuples[i][k], values[i][k]) && is_plainly_written(tuples[i][k]));
            lemma_literals_are_shown(tuples[i][k], values[i][k]);
        }
        assert(parts =~= ids_of_values(values[i]));
    }
}

/// Of two decorators, the cases of the one are combined with each of the other: the part of the
/// inner decorator comes first in an ID.
pub proof fn lemma_decorators_are_combined(
    outer: ParametrizeView,
    inner: ParametrizeView,
    q: int,
    r: int,
)
    requires
        0 <= q < set_ids(outer).len(),
        0 <= r < set_ids(inner).len(),
    ensures
        combination_ids(seq![outer, inner]).len() == set_ids(outer).len() * set_ids(inner).len(),
        combination_ids(seq![outer, inner]).contains(
            set_ids(inner)[r] + seq!['-'] + set_ids(outer)[q],
        ),
{
    let infos = seq![outer, inner];
    let (tails, heads) = (set_ids(outer), set_ids(inner));
    assert(infos.drop_last() =~= seq![outer]);
    assert(combination_ids(seq![outer]) == tails);
    let n = heads.len() as int;
    let at = q * n + r;
    assert(0 <= at < tails.len() * n) by (nonlinear_arith)
        requires
            0 <= q < tails.len(),
            0 <= r < n,
            at == q * n + r,
    ;
    lemma_fundamental_div_mod_converse(at, n, q, r);
    assert(combination_ids(infos)[at] == heads[r] + seq!['-'] + tails[q]);
}

/// A test without `parametrize` is found once, under its own name.
pub proof fn lemma_plain_function(func: FunctionView, class: Option<Seq<char>>)
    requires
        func.decorators.len() == 0,
    ensures
        ({
            let tests = tests_of(func, class, seq![]);
            &&& tests.len() == 1
            &&& tests[0].name == func.name
            &&& tests[0].class_name == class
            &&& tests[0].is_method == class is Some
            &&& !tests[0].is_parametrized
            &&& !tests[0].has_uncertain_params
        }),
{
    assert(parametrizations(func.decorators) =~= Seq::<ParametrizeView>::empty());
    assert(Seq::<ParametrizeView>::empty() + Seq::<ParametrizeView>::empty()
        =~= Seq::<ParametrizeView>::empty());
}

// ---------------------------------------------------------------------------------------------
// Functions and classes
// ---------------------------------------------------------------------------------------------
/// All tests of the part are among the tests.
pub open spec fn has_all(tests: Seq<TestView>, part: Seq<TestView>) -> bool {
    forall|k: int| 0 <= k < part.len() ==> tests.contains(#[trigger] part[k])
}

proof fn lemma_has_all_kept(part: Seq<TestView>, before: Seq<TestView>, after: Seq<TestView>)
    requires
        has_all(before, part),
        before.is_prefix_of(after),
    ensures
        has_all(after, part),
{
    assert forall|k: int| 0 <= k < part.len() implies after.contains(#[trigger] part[k]) by {
        assert(before.contains(part[k]));
        let x = choose|x: int| 0 <= x < before.len() && before[x] == part[k];
        assert(before =~= after.take(before.len() as int));
        assert(after.take(before.len() as int)[x] == after[x]);
    }
}

proof fn lemma_prefix_chain(a: Seq<TestView>, b: Seq<TestView>, c: Seq<TestView>)
    requires
        a.is_prefix_of(b),
        b.is_prefix_of(c),
    ensures
        a.is_prefix_of(c),
{
    assert forall|x: int| 0 <= x < a.len() implies #[trigger] a[x] == c[x] by {
        assert(a =~= b.take(a.len() as int));
        assert(b =~= c.take(b.len() as int));
        assert(b.take(a.len() as int)[x] == b[x]);
        assert(c.take(b.len() as int)[x] == c[x]);
    }
    assert(a =~= c.take(a.len() as int));
}

proof fn lemma_sum_has(done: Seq<TestView>, part: Seq<TestView>)
    ensures
        done.is_prefix_of(done + part),
        has_all(done + part, part),
{
    assert(done =~= (done + part).take(done.len() as int));
    assert forall|k: int| 0 <= k < part.len() implies (done + part).contains(#[trigger] part[k]) by {
        assert((done + part)[done.len() + k] == part[k]);
    }
}

proof fn lemma_inline_grows(
    config: ConfigView,
    cache: Seq<(Seq<char>, InlineClassView)>,
    stmts: Seq<StmtView>,
    i: int,
    class: Option<Seq<char>>,
    infos: Seq<ParametrizeView>,
    done: Seq<TestView>,
)
    requires
        0 <= i,
    ensures
        done.is_prefix_of(inline_tests(config, cache, stmts, i, class, infos, done)),
    decreases stmts, stmts.len() - i,
{
    assert(done =~= done.take(done.len() as int));
    if i < stmts.len() {
        let after = inline_tests(config, cache, stmts, i, class, infos, done);
        let next = inline_step(config, cache, stmts, i, class, infos, done);
        match stmts[i] {
            StmtView::FunctionDef(func) if config.is_test_function(func.name) => {
                lemma_sum_has(done, tests_of(func, class, infos));
            },
            StmtView::ClassDef(inner) => {
                if config.is_test_class(inner.name) && !inline_skips(cache, inner) {
                    let more = inline_inherited(cache, base_exprs(inner), inner.name);
                    lemma_sum_has(done, more);
                    assert(decreases_to!(stmts => stmts[i]));
                    assert(decreases_to!(stmts[i] => stmts[i]->ClassDef_0));
                    assert(decreases_to!(stmts[i]->ClassDef_0 => stmts[i]->ClassDef_0.body));
                    lemma_inline_grows(
                        config,
                        cache,
                        inner.body,
                        0,
                        Some(inner.name),
                        parametrizations(inner.decorators),
                        done + more,
                    );
                    lemma_prefix_chain(done, done + more, next);
                }
            },
            _ => {},
        }
        lemma_inline_grows(config, cache, stmts, i + 1, class, infos, next);
        lemma_prefix_chain(done, next, after);
    }
}

/// The tests after one statement.
spec fn inline_step(
    config: ConfigView,
    cache: Seq<(Seq<char>, InlineClassView)>,
    stmts: Seq<StmtView>,
    i: int,
    class: Option<Seq<char>>,
    infos: Seq<ParametrizeView>,
    done: Seq<TestView>,
) -> Seq<TestView> {
    match stmts[i] {
        StmtView::FunctionDef(func) if config.is_test_function(func.name) => done + tests_of(
            func,
            class,
            infos,
        ),
        StmtView::ClassDef(inner) => if config.is_test_class(inner.name) && !inline_skips(
            cache,
            inner,
        ) {
            inline_tests(
                config,
                cache,
                inner.body,
                0,
                Some(inner.name),
                parametrizations(inner.decorators),
                done + inline_inherited(cache, base_exprs(inner), inner.name),
            )
        } else {
            done
        },
        _ => done,
    }
}

proof fn lemma_step_is_kept(
    config: ConfigView,
    cache: Seq<(Seq<char>, InlineClassView)>,
    stmts: Seq<StmtView>,
    i: int,
    class: Option<Seq<char>>,
    infos: Seq<ParametrizeView>,
    done: Seq<TestView>,
    j: int,
) -> (before: Seq<TestView>)
    requires
        0 <= i <= j < stmts.len(),
    ensures
        inline_step(config, cache, stmts, j, class, infos, before).is_prefix_of(
            inline_tests(config, cache, stmts, i, class, infos, done),
        ),
    decreases j - i,
{
    let next = inline_step(config, cache, stmts, i, class, infos, done);
    assert(inline_tests(config, cache, stmts, i, class, infos, done) == inline_tests(
        config,
        cache,
        stmts,
        i + 1,
        class,
        infos,
        next,
    ));
    if i < j {
        lemma_step_is_kept(config, cache, stmts, i + 1, class, infos, next, j)
    } else {
        lemma_inline_grows(config, cache, stmts, i + 1, class, infos, next);
        done
    }
}

/// Each test function at the top of a module is found, and each test method of a test class there
/// that is not passed over, with the decorators of the class.
pub proof fn lemma_functions_and_methods_are_found(
    config: ConfigView,
    stmts: Seq<StmtView>,
    j: int,
    k: int,
)
    requires
        0 <= j < stmts.len(),
    ensures
        stmts[j] is FunctionDef && config.is_test_function(stmts[j]->FunctionDef_0.name) ==> has_all(
            module_inline_tests(config, stmts),
            tests_of(stmts[j]->FunctionDef_0, None, seq![]),
        ),
        stmts[j] is ClassDef && config.is_test_class(stmts[j]->ClassDef_0.name) && !inline_skips(
            inline_cache(config, stmts, 0, seq![]),
            stmts[j]->ClassDef_0,
        ) ==> {
            let class = stmts[j]->ClassDef_0;
            &&& 0 <= k < class.body.len() && class.body[k] is FunctionDef
                && config.is_test_function(class.body[k]->FunctionDef_0.name) ==> has_all(
                module_inline_tests(config, stmts),
                tests_of(
                    class.body[k]->FunctionDef_0,
                    Some(class.name),
                    parametrizations(class.decorators),
                ),
            )
            &&& has_all(
                module_inline_tests(config, stmts),
                inline_inherited(
                    inline_cache(config, stmts, 0, seq![]),
                    base_exprs(class),
                    class.name,
                ),
            )
        },
{
    let cache = inline_cache(config, stmts, 0, seq![]);
    let all = module_inline_tests(config, stmts);
    let none = Seq::<ParametrizeView>::empty();
    let before = lemma_step_is_kept(config, cache, stmts, 0, None, none, seq![], j);
    let after = inline_step(config, cache, stmts, j, None, none, before);
    match stmts[j] {
        StmtView::FunctionDef(func) => {
            if config.is_test_function(func.name) {
                let part = tests_of(func, None, none);
                lemma_sum_has(before, part);
                lemma_has_all_kept(part, after, all);
            }
        },
        StmtView::ClassDef(class) => {
            if config.is_test_class(class.name) && !inline_skips(cache, class) {
                let infos = parametrizations(class.decorators);
                let more = inline_inherited(cache, base_exprs(class), class.name);
                let start = before + more;
                lemma_sum_has(before, more);
                lemma_inline_grows(config, cache, class.body, 0, Some(class.name), infos, start);
                lemma_has_all_kept(more, start, after);
                lemma_has_all_kept(more, after, all);
                if 0 <= k < class.body.len() && class.body[k] is FunctionDef
                    && config.is_test_function(class.body[k]->FunctionDef_0.name) {
                    let part = tests_of(class.body[k]->FunctionDef_0, Some(class.name), infos);
                    let inner = lemma_step_is_kept(
                        config,
                        cache,
                        class.body,
                        0,
                        Some(class.name),
                        infos,
                        start,
                        k,
                    );
                    let step = inline_step(
                        config,
                        cache,
                        class.body,
                        k,
                        Some(class.name),
                        infos,
                        inner,
                    );
                    lemma_sum_has(inner, part);
                    lemma_has_all_kept(part, step, after);
                    lemma_has_all_kept(part, after, all);
                }
            }
        },
        _ => {},
    }
}

// ---------------------------------------------------------------------------------------------
// Inheritance
// ---------------------------------------------------------------------------------------------
proof fn lemma_cache(
    config: ConfigView,
    stmts: Seq<StmtView>,
    i: int,
    done: Seq<(Seq<char>, InlineClassView)>,
    j: int,
    name: Seq<char>,
)
    requires
        0 <= i,
        config.is_test_class(name),
        forall|m: int| i <= m < stmts.len() && m > j ==> !is_class(#[trigger] stmts[m], name),
        i <= j ==> j < stmts.len() && is_class(stmts[j], name),
    ensures
        entry(inline_cache(config, stmts, i, done), name) == if i <= j {
            let class = stmts[j]->ClassDef_0;
            Some(
                InlineClassView {
                    methods: method_tests(
                        config,
                        class.body,
                        class.name,
                        parametrizations(class.decorators),
                    ),
                    has_init: init_named(stmts, name),
                },
            )
        } else {
            entry(done, name)
        },
    decreases stmts.len() - i,
{
    if i < stmts.len() {
        match stmts[i] {
            StmtView::ClassDef(class) if config.is_test_class(class.name) => {
                let info = InlineClassView {
                    methods: method_tests(
                        config,
                        class.body,
                        class.name,
                        parametrizations(class.decorators),
                    ),
                    has_init: init_named(stmts, class.name),
                };
                lemma_entry_after_insert(done, class.name, info, name);
                lemma_cache(
                    config,
                    stmts,
                    i + 1,
                    with_entry(done, class.name, info),
                    j,
                    name,
                );
            },
            _ => {
                lemma_cache(config, stmts, i + 1, done, j, name);
            },
        }
        if i > j {
            assert(!is_class(stmts[i], name));
        }
    }
}

proof fn lemma_method_tests(
    config: ConfigView,
    body: Seq<StmtView>,
    class: Seq<char>,
    infos: Seq<ParametrizeView>,
    k: int,
)
    requires
        0 <= k < body.len(),
        body[k] is FunctionDef,
        config.is_test_function(body[k]->FunctionDef_0.name),
    ensures
        has_all(
            method_tests(config, body, class, infos),
            tests_of(body[k]->FunctionDef_0, Some(class), infos),
        ),
    decreases body.len(),
{
    let all = method_tests(config, body, class, infos);
    let front = method_tests(config, body.drop_last(), class, infos);
    let part = tests_of(body[k]->FunctionDef_0, Some(class), infos);
    if k < body.len() - 1 {
        lemma_method_tests(config, body.drop_last(), class, infos, k);
        match body.last() {
            StmtView::FunctionDef(func) if config.is_test_function(func.name) => {
                lemma_sum_has(front, tests_of(func, Some(class), infos));
            },
            _ => {
                assert(front =~= front.take(front.len() as int));
            },
        }
        lemma_has_all_kept(part, front, all);
    } else {
        assert(body.last() == body[k]);
        lemma_sum_has(front, part);
    }
}

proof fn lemma_inherited_has(
    cache: Seq<(Seq<char>, InlineClassView)>,
    bases: Seq<ExprView>,
    class: Seq<char>,
    b: int,
)
    requires
        0 <= b < bases.len(),
        inline_base(cache, bases[b]) is Some,
    ensures
        has_all(
            inline_inherited(cache, bases, class),
            moved_to(inline_base(cache, bases[b])->0.methods, class),
        ),
    decreases bases.len(),
{
    let all = inline_inherited(cache, bases, class);
    let front = inline_inherited(cache, bases.drop_last(), class);
    let part = moved_to(inline_base(cache, bases[b])->0.methods, class);
    if b < bases.len() - 1 {
        lemma_inherited_has(cache, bases.drop_last(), class, b);
        match inline_base(cache, bases.last()) {
            Some(parent) => {
                lemma_sum_has(front, moved_to(parent.methods, class));
            },
            None => {
                assert(front =~= front.take(front.len() as int));
            },
        }
        lemma_has_all_kept(part, front, all);
    } else {
        assert(bases.last() == bases[b]);
        lemma_sum_has(front, part);
    }
}

/// None of the classes of the module has a constructor.
pub open spec fn no_constructors(stmts: Seq<StmtView>) -> bool {
    forall|j: int|
        0 <= j < stmts.len() && (#[trigger] stmts[j]) is ClassDef ==> !defines_function(
            stmts[j]->ClassDef_0.body,
            "__init__"@,
        )
}

proof fn lemma_cached_without_constructor(
    config: ConfigView,
    stmts: Seq<StmtView>,
    i: int,
    done: Seq<(Seq<char>, InlineClassView)>,
    name: Seq<char>,
)
    requires
        0 <= i,
        no_constructors(stmts),
        entry(done, name) matches Some(info) ==> !info.has_init,
    ensures
        entry(inline_cache(config, stmts, i, done), name) matches Some(info) ==> !info.has_init,
    decreases stmts.len() - i,
{
    if i < stmts.len() {
        match stmts[i] {
            StmtView::ClassDef(class) if config.is_test_class(class.name) => {
                let info = InlineClassView {
                    methods: method_tests(
                        config,
                        class.body,
                        class.name,
                        parametrizations(class.decorators),
                    ),
                    has_init: init_named(stmts, class.name),
                };
                assert(!init_named(stmts, class.name)) by {
                    if init_named(stmts, class.name) {
                        let m = choose|m: int|
                            0 <= m < stmts.len() && named_with_init(#[trigger] stmts[m], class.name);
                        assert(stmts[m] is ClassDef);
                        lemma_constructor(stmts[m]->ClassDef_0);
                    }
                }
                lemma_entry_after_insert(done, class.name, info, name);
                lemma_cached_without_constructor(
                    config,
                    stmts,
                    i + 1,
                    with_entry(done, class.name, info),
                    name,
                );
            },
            _ => {
                lemma_cached_without_constructor(config, stmts, i + 1, done, name);
            },
        }
    }
}

/// A test class has the tests of each test class of the module that it names as a base, under its
/// own name, where no class has a constructor.
pub proof fn lemma_tests_are_inherited_in_module(
    config: ConfigView,
    stmts: Seq<StmtView>,
    j: int,
    b: int,
    base_at: int,
    base: Seq<char>,
    k: int,
    t: int,
)
    requires
        no_constructors(stmts),
        0 <= j < stmts.len(),
        stmts[j] is ClassDef,
        config.is_test_class(stmts[j]->ClassDef_0.name),
        stmts[j]->ClassDef_0.bases is Some,
        0 <= b < stmts[j]->ClassDef_0.bases->0.len(),
        stmts[j]->ClassDef_0.bases->0[b] == ExprView::Name(base),
        config.is_test_class(base),
        is_last_class(stmts, base_at, base),
        0 <= k < stmts[base_at]->ClassDef_0.body.len(),
        stmts[base_at]->ClassDef_0.body[k] is FunctionDef,
        config.is_test_function(stmts[base_at]->ClassDef_0.body[k]->FunctionDef_0.name),
        ({
            let parent = stmts[base_at]->ClassDef_0;
            0 <= t < tests_of(
                parent.body[k]->FunctionDef_0,
                Some(parent.name),
                parametrizations(parent.decorators),
            ).len()
        }),
    ensures
        ({
            let parent = stmts[base_at]->ClassDef_0;
            let test = tests_of(
                parent.body[k]->FunctionDef_0,
                Some(parent.name),
                parametrizations(parent.decorators),
            )[t];
            let all = module_inline_tests(config, stmts);
            exists|x: int|
                {
                    &&& 0 <= x < all.len()
                    &&& (#[trigger] all[x]).name == test.name
                    &&& all[x].class_name == Some(stmts[j]->ClassDef_0.name)
                    &&& all[x].line == test.line
                    &&& all[x].is_parametrized == test.is_parametrized
                    &&& all[x].has_uncertain_params == test.has_uncertain_params
                }
        }),
{
    let cache = inline_cache(config, stmts, 0, seq![]);
    let class = stmts[j]->ClassDef_0;
    let parent = stmts[base_at]->ClassDef_0;
    let infos = parametrizations(parent.decorators);
    let bases = base_exprs(class);
    let all = module_inline_tests(config, stmts);
    assert(stmts[j] is ClassDef);
    lemma_constructor(class);
    assert(!inline_skips(cache, class)) by {
        if inline_skips(cache, class) {
            let i = choose|i: int|
                0 <= i < base_exprs(class).len() && (inline_base(
                    cache,
                    #[trigger] base_exprs(class)[i],
                ) matches Some(parent) && parent.has_init);
            lemma_cached_without_constructor(config, stmts, 0, seq![], bases[i]->Name_0);
        }
    }
    lemma_cache(config, stmts, 0, seq![], base_at, base);
    let info = inline_base(cache, bases[b])->0;
    let tests = tests_of(parent.body[k]->FunctionDef_0, Some(parent.name), infos);
    lemma_method_tests(config, parent.body, parent.name, infos, k);
    assert(info.methods.contains(tests[t]));
    let m = choose|m: int| 0 <= m < info.methods.len() && info.methods[m] == tests[t];
    let moved = moved_to(info.methods, class.name);
    lemma_inherited_has(cache, bases, class.name, b);
    let inherited = inline_inherited(cache, bases, class.name);
    assert(inherited.contains(moved[m]));
    let y = choose|y: int| 0 <= y < inherited.len() && inherited[y] == moved[m];
    lemma_functions_and_methods_are_found(config, stmts, j, 0);
    assert(all.contains(inherited[y]));
    let x = choose|x: int| 0 <= x < all.len() && all[x] == inherited[y];
    assert(all[x].name == tests[t].name);
}

/// A class that is not named like a test class, and a test class with a constructor, adds nothing.
pub proof fn lemma_passed_over(
    config: ConfigView,
    cache: Seq<(Seq<char>, InlineClassView)>,
    stmts: Seq<StmtView>,
    i: int,
    class: Option<Seq<char>>,
    infos: Seq<ParametrizeView>,
    done: Seq<TestView>,
)
    requires
        0 <= i < stmts.len(),
        stmts[i] is ClassDef,
        !config.is_test_class(stmts[i]->ClassDef_0.name) || defines_function(
            stmts[i]->ClassDef_0.body,
            "__init__"@,
        ),
    ensures
        inline_tests(config, cache, stmts, i, class, infos, done) == inline_tests(
            config,
            cache,
            stmts,
            i + 1,
            class,
            infos,
            done,
        ),
{
    lemma_constructor(stmts[i]->ClassDef_0);
}

// ---------------------------------------------------------------------------------------------
// Explicit IDs and uncertain values
// ---------------------------------------------------------------------------------------------
/// Explicit IDs are used as they are, each for the case at its place.
pub proof fn lemma_explicit_ids_are_used(info: ParametrizeView, i: int)
    requires
        0 <= i < info.values.len(),
        info.explicit_ids is Some,
        i < info.explicit_ids->0.len(),
    ensures
        set_ids(info)[i] == info.explicit_ids->0[i],
{
}

/// Explicit IDs are the texts of the list or tuple behind the first `ids=`.
pub proof fn lemma_explicit_ids_are_read(
    keywords: Seq<KeywordView>,
    i: int,
    k: int,
    elts: Seq<ExprView>,
    list: Seq<Seq<char>>,
)
    requires
        0 <= i <= k < keywords.len(),
        keywords[k].arg == Some("ids"@),
        keywords[k].value == ExprView::List(elts) || keywords[k].value == ExprView::Tuple(elts),
        forall|j: int| i <= j < k ==> (#[trigger] keywords[j]).arg != Some("ids"@),
        are_strings(elts, list),
    ensures
        explicit_ids_from(keywords, i) == Some(list),
    decreases k - i,
{
    if i < k {
        assert(keywords[i].arg != Some("ids"@));
        lemma_explicit_ids_are_read(keywords, i + 1, k, elts, list);
    } else {
        lemma_strings_from(elts, 0, seq![], list);
        assert(Seq::<Seq<char>>::empty() + list.skip(0) =~= list);
    }
}

/// A value that is no literal, name or attribute is known by its argument and the number of its
/// case. An attribute is known by its path, a name by itself.
pub proof fn lemma_texts_of_other_values(
    param_names: Seq<Seq<char>>,
    values: Seq<ParamView>,
    number: nat,
    i: int,
)
    requires
        values.len() == param_names.len(),
        0 <= i < values.len(),
    ensures
        set_parts(param_names, values, number).len() == values.len(),
        values[i] is Complex ==> is_numbered(
            set_parts(param_names, values, number)[i],
            param_names,
            i,
            number,
        ),
        values[i] is AttributeAccess ==> set_parts(param_names, values, number)[i]
            == values[i]->AttributeAccess_0,
        values[i] is Simple ==> set_parts(param_names, values, number)[i] == values[i]->Simple_0,
{
    if values[i] is Complex {
        let id = set_parts(param_names, values, number)[i];
        let name = param_names[i];
        lemma_digits_of_number(number);
        assert(id.skip(name.len() as int) =~= nat_text(number));
        assert(name =~= id.take(name.len() as int));
    }
}

/// Calls, lists, tuples and comprehensions have no text. An attribute has its dotted path, and a
/// name itself.
pub proof fn lemma_other_values(e: ExprView, name: Seq<char>, attr: Seq<char>)
    ensures
        e is Call || e is List || e is Tuple || e is Comprehension || e is Other ==> param_of(e)
            is Complex,
        param_of(ExprView::Name(name)) == ParamView::Simple(name),
        param_of(member_of(ExprView::Name(name), attr)) == ParamView::AttributeAccess(
            name + seq!['.'] + attr,
        ),
        e is Attribute && param_of(e) is AttributeAccess ==> param_of(member_of(e, attr))
            == ParamView::AttributeAccess(param_of(e)->AttributeAccess_0 + seq!['.'] + attr),
{
}

/// The parameters of a test are uncertain just where one of its values is an attribute or has no
/// text.
pub proof fn lemma_uncertain_parameters(infos: Seq<ParametrizeView>)
    ensures
        any_uncertain(infos) <==> exists|i: int, j: int, k: int|
            0 <= i < infos.len() && 0 <= j < infos[i].values.len() && 0 <= k
                < infos[i].values[j].len() && !((#[trigger] infos[i].values[j][k]) is Simple),
{
    if exists|i: int, j: int, k: int|
        0 <= i < infos.len() && 0 <= j < infos[i].values.len() && 0 <= k < infos[i].values[j].len()
            && !((#[trigger] infos[i].values[j][k]) is Simple) {
        let (i, j, k) = choose|i: int, j: int, k: int|
            0 <= i < infos.len() && 0 <= j < infos[i].values.len() && 0 <= k
                < infos[i].values[j].len() && !((#[trigger] infos[i].values[j][k]) is Simple);
        assert(is_uncertain(infos[i].values[j][k]));
    }
}

/// A method without decorators of its own has the cases of its class.
pub proof fn lemma_cases_of_the_class(func: FunctionView, class: Seq<char>, info: ParametrizeView)
    requires
        func.decorators.len() == 0,
    ensures
        ({
            let tests = tests_of(func, Some(class), seq![info]);
            &&& tests.len() == set_ids(info).len()
            &&& forall|i: int|
                0 <= i < tests.len() ==> (#[trigger] tests[i]).name == func.name + seq!['[']
                    + set_ids(info)[i] + seq![']'] && tests[i].class_name == Some(class)
                    && tests[i].is_parametrized
        }),
{
    assert(parametrizations(func.decorators) =~= Seq::<ParametrizeView>::empty());
    assert(Seq::<ParametrizeView>::empty() + seq![info] =~= seq![info]);
}

/// The decorators of a test are read one after another: those that give cases, in order.
pub proof fn lemma_decorators_in_order(a: Seq<ExprView>, b: Seq<ExprView>)
    ensures
        parametrizations(a + b) == parametrizations(a) + parametrizations(b),
        a.len() == 1 ==> parametrizations(a) == match parametrize_of(a[0]) {
            Some(info) => seq![info],
            None => seq![],
        },
    decreases b.len(),
{
    if a.len() == 1 {
        assert(a.drop_last() =~= Seq::<ExprView>::empty());
        assert(parametrizations(a.drop_last()) =~= Seq::<ParametrizeView>::empty());
        assert(a.last() == a[0]);
        if let Some(info) = parametrize_of(a[0]) {
            assert(parametrizations(a) =~= seq![info]);
        }
    }
    if b.len() == 0 {
        assert(a + b =~= a);
        assert(parametrizations(a) + parametrizations(b) =~= parametrizations(a));
    } else {
        lemma_decorators_in_order(a, b.drop_last());
        assert((a + b).drop_last() =~= a + b.drop_last());
        assert((a + b).last() == b.last());
        assert(parametrizations(a + b) =~= parametrizations(a) + parametrizations(b));
    }
}

} // verus!
