//! What argument names, values and IDs the decorators of a test give.

use crate::python_discovery::case_laws::{lemma_known_parts_stay, lemma_single_decorator};
use crate::python_discovery::cases::{
    escaped, spec_ids, value_id, value_ids, ExpansionView, SpecView, ValueView,
};
use crate::python_discovery::constant_resolver::{fresh_resolver, ResolverView};
use crate::python_discovery::constants::{literal_of, literals_from};
use crate::python_discovery::decorators::{
    argnames_of, calls_param, decorator_spec, decorators_expansion, final_id, has_kwarg,
    indexed_ids, names_among, part_id, part_texts, positional, resolved_case_ids, specs_from,
    strings_from, style_of, text_kwarg, ContextView, ObstacleView, ParamIdStyle, PartView,
};
use crate::python_discovery::discovery_laws::{
    assigned, decorator, is_last_assignment, lemma_constant_resolves,
    lemma_fresh_module_is_loaded, lemma_last_assignment_is_known,
    lemma_module_constant_gives_cases,
};
use crate::python_discovery::numbers::{float_text, integer_text};
use crate::python_discovery::syntax::{ExprView, KeywordView, NumberView, StmtView};
use crate::strings::{
    all_digits, digits_value, int_text, joined, lemma_digits_of_number, lemma_joined_is_split_back,
    lemma_trimmed, nat_text, pieces, trimmed,
};
use vstd::prelude::*;

verus! {

// ---------------------------------------------------------------------------------------------
// Argument names
// ---------------------------------------------------------------------------------------------
/// The expressions are these texts, written as string literals.
pub open spec fn are_strings(elts: Seq<ExprView>, list: Seq<Seq<char>>) -> bool {
    elts.len() == list.len() && forall|i: int|
        0 <= i < elts.len() ==> #[trigger] elts[i] == ExprView::StringLiteral(list[i])
}

/// A list of string literals gives their texts, in order.
pub proof fn lemma_strings_from(
    elts: Seq<ExprView>,
    i: int,
    done: Seq<Seq<char>>,
    list: Seq<Seq<char>>,
)
    requires
        0 <= i <= elts.len(),
        are_strings(elts, list),
    ensures
        strings_from(elts, i, done) == Some(done + list.skip(i)),
    decreases elts.len() - i,
{
    if i < elts.len() {
        assert(elts[i] == ExprView::StringLiteral(list[i]));
        lemma_strings_from(elts, i + 1, done.push(list[i]), list);
        assert(done.push(list[i]) + list.skip(i + 1) =~= done + list.skip(i));
    } else {
        assert(done + list.skip(i) =~= done);
    }
}

/// The text is a word: it holds printable ASCII characters alone, without blanks and commas.
pub open spec fn is_word(s: Seq<char>) -> bool {
    s.len() > 0 && forall|i: int|
        0 <= i < s.len() ==> '!' <= #[trigger] s[i] <= '~' && s[i] != ','
}

/// The text is made of blanks.
pub open spec fn is_blank(s: Seq<char>) -> bool {
    forall|i: int| 0 <= i < s.len() ==> #[trigger] s[i] == ' '
}

proof fn lemma_names_among(list: Seq<Seq<char>>, names: Seq<Seq<char>>)
    requires
        list.len() == names.len(),
        forall|i: int|
            0 <= i < list.len() ==> trimmed(#[trigger] list[i]) == names[i] && names[i].len() > 0,
    ensures
        names_among(list) == names,
    decreases list.len(),
{
    if list.len() == 0 {
        assert(names_among(list) =~= names);
    } else {
        let front = list.drop_last();
        assert forall|i: int| 0 <= i < front.len() implies trimmed(#[trigger] front[i])
            == names.drop_last()[i] && names.drop_last()[i].len() > 0 by {
            assert(front[i] == list[i]);
        }
        lemma_names_among(front, names.drop_last());
        assert(list[list.len() - 1] == list.last());
        assert(names_among(list) =~= names);
    }
}

/// A tuple and a list of names give these names, in order.
pub proof fn lemma_listed_names(elts: Seq<ExprView>, names: Seq<Seq<char>>)
    requires
        names.len() > 0,
        are_strings(elts, names),
    ensures
        argnames_of(ExprView::Tuple(elts)) == Ok::<Seq<Seq<char>>, ObstacleView>(names),
        argnames_of(ExprView::List(elts)) == Ok::<Seq<Seq<char>>, ObstacleView>(names),
{
    lemma_strings_from(elts, 0, seq![], names);
    assert(Seq::<Seq<char>>::empty() + names.skip(0) =~= names);
}

/// The text is a name with blanks around it.
pub open spec fn is_padded(s: Seq<char>, name: Seq<char>) -> bool {
    exists|before: Seq<char>, after: Seq<char>|
        is_blank(before) && is_blank(after) && s == #[trigger] (before + name + after)
}

/// A text with commas between names gives these names, in order; they may have blanks around them.
/// So do a tuple and a list of the names.
pub proof fn lemma_separated_names(
    elts: Seq<ExprView>,
    names: Seq<Seq<char>>,
    padded: Seq<Seq<char>>,
)
    requires
        names.len() > 0,
        are_strings(elts, names),
        padded.len() == names.len(),
        forall|i: int|
            #![trigger padded[i]]
            0 <= i < names.len() ==> is_word(names[i]) && is_padded(padded[i], names[i]),
    ensures
        argnames_of(ExprView::StringLiteral(joined(padded, seq![',']))) == Ok::<
            Seq<Seq<char>>,
            ObstacleView,
        >(names),
        argnames_of(ExprView::StringLiteral(joined(padded, seq![',']))) == argnames_of(
            ExprView::Tuple(elts),
        ),
        argnames_of(ExprView::StringLiteral(joined(padded, seq![',']))) == argnames_of(
            ExprView::List(elts),
        ),
{
    lemma_listed_names(elts, names);
    assert forall|i: int| 0 <= i < padded.len() implies !(#[trigger] padded[i]).contains(',')
        && trimmed(padded[i]) == names[i] && names[i].len() > 0 by {
        let n = names[i];
        let (b, a) = choose|before: Seq<char>, after: Seq<char>|
            is_blank(before) && is_blank(after) && padded[i] == #[trigger] (before + n + after);
        if padded[i].contains(',') {
            let k = choose|k: int| 0 <= k < padded[i].len() && padded[i][k] == ',';
            if k < b.len() {
                assert(b[k] == ',');
            } else if k < b.len() + n.len() {
                assert(n[k - b.len()] == ',');
            } else {
                assert(a[k - b.len() - n.len()] == ',');
            }
        }
        assert('!' <= n[0] <= '~');
        assert('!' <= n[n.len() - 1] <= '~');
        lemma_trimmed(b, n, a);
    }
    lemma_joined_is_split_back(padded, ',');
    lemma_names_among(padded, names);
    assert(pieces(joined(padded, seq![',']), ',') == padded);
}

/// Names that are not all texts, and anything that is neither a text nor a list or tuple of texts,
/// give no argument names.
pub proof fn lemma_no_argument_names(e: ExprView)
    requires
        match e {
            ExprView::StringLiteral(_) => false,
            ExprView::Tuple(elts) => elts.len() == 0 || exists|i: int|
                0 <= i < elts.len() && !((#[trigger] elts[i]) is StringLiteral),
            ExprView::List(elts) => elts.len() == 0 || exists|i: int|
                0 <= i < elts.len() && !((#[trigger] elts[i]) is StringLiteral),
            _ => true,
        },
    ensures
        argnames_of(e) is Err,
{
    match e {
        ExprView::Tuple(elts) => {
            if elts.len() > 0 {
                let i = choose|i: int|
                    0 <= i < elts.len() && !((#[trigger] elts[i]) is StringLiteral);
                lemma_no_strings(elts, 0, seq![], i);
            }
        },
        ExprView::List(elts) => {
            if elts.len() > 0 {
                let i = choose|i: int|
                    0 <= i < elts.len() && !((#[trigger] elts[i]) is StringLiteral);
                lemma_no_strings(elts, 0, seq![], i);
            }
        },
        _ => {},
    }
}

proof fn lemma_no_strings(elts: Seq<ExprView>, i: int, done: Seq<Seq<char>>, k: int)
    requires
        0 <= i <= k < elts.len(),
        !(elts[k] is StringLiteral),
    ensures
        strings_from(elts, i, done) is None,
    decreases elts.len() - i,
{
    if i < k {
        if let ExprView::StringLiteral(s) = elts[i] {
            lemma_no_strings(elts, i + 1, done.push(s), k);
        }
    }
}

// ---------------------------------------------------------------------------------------------
// Literals
// ---------------------------------------------------------------------------------------------
/// The expression is a literal with that value: a number, a text, a truth value, `None`, or a
/// number with a minus sign.
pub open spec fn denotes(e: ExprView, value: ValueView) -> bool {
    match e {
        ExprView::BooleanLiteral(b) => value == ValueView::Bool(b),
        ExprView::NoneLiteral => value == ValueView::NoneValue,
        ExprView::StringLiteral(s) => value == ValueView::Text(s),
        ExprView::NumberLiteral(NumberView::Int { small: Some(n), .. }) => value == ValueView::Int(
            n,
        ),
        ExprView::NumberLiteral(NumberView::Int { small: None, text }) => value == ValueView::Text(
            integer_text(text),
        ),
        ExprView::NumberLiteral(NumberView::Float { scientific }) => value == ValueView::Float(
            float_text(scientific),
        ),
        ExprView::UnaryOp { minus, operand } => minus && match *operand {
            ExprView::NumberLiteral(NumberView::Int { small: Some(n), .. }) => value is Int && n
                > i64::MIN && value->Int_0 == -n,
            ExprView::NumberLiteral(NumberView::Int { small: None, text }) => value
                == ValueView::Text(seq!['-'] + integer_text(text)),
            ExprView::NumberLiteral(NumberView::Float { scientific }) => value is Float
                && float_text(scientific).len() > 0 && float_text(scientific)[0] != '-'
                && value->Float_0 == seq!['-'] + float_text(scientific),
            _ => false,
        },
        _ => false,
    }
}

/// The text of a value in an ID.
pub open spec fn shows(value: ValueView, id: Seq<char>) -> bool {
    match value {
        ValueView::Bool(b) => id == if b {
            "True"@
        } else {
            "False"@
        },
        ValueView::NoneValue => id == "None"@,
        ValueView::Text(s) => id == escaped(s),
        ValueView::Float(text) => id == text,
        ValueView::Int(n) => if n < 0 {
            id.len() > 1 && id[0] == '-' && all_digits(id.skip(1)) && digits_value(id.skip(1))
                == -n
        } else {
            id.len() > 0 && all_digits(id) && digits_value(id) == n
        },
        _ => false,
    }
}

/// The ID of a number, a text, a truth value or `None` is its text. The text of a whole number is
/// read back as that number.
pub proof fn lemma_ids_of_literals(value: ValueView)
    requires
        value is Bool || value is NoneValue || value is Text || value is Float || value is Int,
    ensures
        shows(value, value_id(value)),
{
    if let ValueView::Int(n) = value {
        let n = n as int;
        if n < 0 {
            lemma_digits_of_number((-n) as nat);
            assert(int_text(n).skip(1) =~= nat_text((-n) as nat));
        } else {
            lemma_digits_of_number(n as nat);
        }
    }
}

/// A literal stands for its value, where it is assigned to a name and where it stands among the
/// values of a decorator; there its ID is the text of the value.
pub proof fn lemma_literals_keep_their_values(e: ExprView, value: ValueView, context: ContextView)
    requires
        denotes(e, value),
    ensures
        literal_of(e) == Some(value),
        context.literal_parts(e) matches Ok((found, parts)) && {
            &&& found == value
            &&& parts.len() == 1
            &&& !parts[0].is_opaque
            &&& shows(value, parts[0].text)
        },
        context.literal_case(e) == Ok::<(ValueView, Seq<char>), ObstacleView>(
            (value, value_id(value)),
        ),
{
    lemma_ids_of_literals(value);
    if let ExprView::UnaryOp { minus, operand } = e {
        reveal_with_fuel(literal_of, 2);
        let inner = context.literal_parts(*operand);
        assert(literal_of(*operand) is Some);
        assert(inner is Ok);
        assert(inner->Ok_0.0 == literal_of(*operand)->0);
    }
    let parts = context.literal_parts(e)->Ok_0.1;
    assert(part_texts(parts) =~= seq![value_id(value)]);
    assert(joined(part_texts(parts), "-"@) == value_id(value));
}

/// A name that was last assigned a literal stands for the value of the literal. Among the values of
/// `parametrize` it has the ID that the literal has there; among those of `cases`, its own name.
pub proof fn lemma_named_literal(
    stmts: Seq<StmtView>,
    path: Seq<Seq<char>>,
    follows_imports: bool,
    i: int,
    name: Seq<char>,
    value: ValueView,
    style: ParamIdStyle,
)
    requires
        is_last_assignment(stmts, i, name),
        denotes(assigned(stmts[i]), value),
    ensures
        ({
            let context = ContextView {
                resolver: Some(fresh_resolver(stmts, path, follows_imports)),
                enclosing_class: None,
                style,
            };
            let named = context.literal_case(ExprView::Name(name));
            &&& named is Ok
            &&& named->Ok_0.0 == value
            &&& style == ParamIdStyle::RuntimeValue ==> named == context.literal_case(
                assigned(stmts[i]),
            ) && shows(value, named->Ok_0.1)
            &&& style == ParamIdStyle::SourcePath ==> named->Ok_0.1 == name
        }),
{
    let resolver = fresh_resolver(stmts, path, follows_imports);
    let context = ContextView { resolver: Some(resolver), enclosing_class: None, style };
    let e = ExprView::Name(name);
    lemma_literals_keep_their_values(assigned(stmts[i]), value, context);
    lemma_ids_of_literals(value);
    lemma_last_assignment_is_known(stmts, i, name);
    lemma_fresh_module_is_loaded(
        stmts,
        path,
        follows_imports,
    );
    lemma_constant_resolves(resolver, name, value);
    reveal_with_fuel(joined, 2);
    assert(joined(seq![name], "."@) =~= name);
    let parts = context.literal_parts(e)->Ok_0.1;
    assert(parts.len() == 1);
    assert(part_texts(parts) =~= seq![parts[0].text]);
    assert(joined(part_texts(parts), "-"@) == parts[0].text);
}

// ---------------------------------------------------------------------------------------------
// Listed values
// ---------------------------------------------------------------------------------------------
/// The expressions are literals with these values.
pub open spec fn all_denote(elts: Seq<ExprView>, values: Seq<ValueView>) -> bool {
    elts.len() == values.len() && forall|i: int|
        0 <= i < elts.len() ==> denotes(#[trigger] elts[i], values[i])
}

/// The IDs are the texts of the values, in order.
pub open spec fn all_show(values: Seq<ValueView>, ids: Seq<Seq<char>>) -> bool {
    ids.len() == values.len() && forall|i: int|
        0 <= i < ids.len() ==> shows(values[i], #[trigger] ids[i])
}

proof fn lemma_single_part(value: ValueView, id: Seq<char>, argnames: Seq<Seq<char>>, case: nat)
    ensures
        final_id(seq![PartView { text: id, is_opaque: false }], argnames, case) == id,
{
    let parts = seq![PartView { text: id, is_opaque: false }];
    let ids = Seq::new(
        parts.len(),
        |i: int|
            if parts[i].is_opaque {
                positional(argnames, i, case)
            } else {
                parts[i].text
            },
    );
    assert(ids =~= seq![id]);
    assert(joined(ids, "-"@) == id);
}

proof fn lemma_listed_literals(
    context: ContextView,
    elts: Seq<ExprView>,
    i: int,
    argnames: Seq<Seq<char>>,
    values: Seq<ValueView>,
    done_values: Seq<ValueView>,
    done_ids: Seq<Seq<char>>,
)
    requires
        0 <= i <= elts.len(),
        all_denote(elts, values),
    ensures
        context.listed_cases(elts, i, argnames, done_values, done_ids) == Ok::<
            (Seq<ValueView>, Seq<Seq<char>>),
            ObstacleView,
        >(
            (
                done_values + values.skip(i),
                done_ids + Seq::new(
                    (values.len() - i) as nat,
                    |k: int| value_id(values[i + k]),
                ),
            ),
        ),
    decreases elts.len() - i,
{
    let rest = Seq::new((values.len() - i) as nat, |k: int| value_id(values[i + k]));
    if i < elts.len() {
        let (e, value) = (elts[i], values[i]);
        assert(denotes(e, value));
        lemma_literals_keep_their_values(e, value, context);
        let parts = context.literal_parts(e)->Ok_0.1;
        let id = value_id(value);
        assert(parts =~= seq![PartView { text: id, is_opaque: false }]);
        lemma_single_part(value, id, argnames, i as nat);
        lemma_listed_literals(
            context,
            elts,
            i + 1,
            argnames,
            values,
            done_values.push(value),
            done_ids.push(id),
        );
        let more = Seq::new((values.len() - (i + 1)) as nat, |k: int| value_id(values[i + 1 + k]));
        assert(done_values.push(value) + values.skip(i + 1) =~= done_values + values.skip(i));
        assert(done_ids.push(id) + more =~= done_ids + rest);
    } else {
        assert(done_values + values.skip(i) =~= done_values);
        assert(done_ids + rest =~= done_ids);
    }
}

/// A list or tuple of literals gives one case for each, in order: its value, and the text of the
/// value as its ID.
pub proof fn lemma_literals_give_cases(
    context: ContextView,
    elts: Seq<ExprView>,
    argnames: Seq<Seq<char>>,
    values: Seq<ValueView>,
)
    requires
        all_denote(elts, values),
    ensures
        context.argvalues(ExprView::List(elts), argnames) matches Ok((found, ids)) && found
            == values && all_show(values, ids),
        context.argvalues(ExprView::Tuple(elts), argnames) == context.argvalues(
            ExprView::List(elts),
            argnames,
        ),
{
    lemma_listed_literals(context, elts, 0, argnames, values, seq![], seq![]);
    let (found, ids) = context.argvalues(ExprView::List(elts), argnames)->Ok_0;
    assert(found =~= values);
    assert forall|i: int| 0 <= i < ids.len() implies shows(values[i], #[trigger] ids[i]) by {
        assert(denotes(elts[i], values[i]));
        lemma_ids_of_literals(values[i]);
    }
}

/// A list of literals has their values, in order.
pub proof fn lemma_literals_from(
    elts: Seq<ExprView>,
    i: int,
    done: Seq<ValueView>,
    values: Seq<ValueView>,
    context: ContextView,
)
    requires
        0 <= i <= elts.len(),
        all_denote(elts, values),
    ensures
        literals_from(elts, i, done) == Some(done + values.skip(i)),
    decreases elts.len() - i,
{
    if i < elts.len() {
        assert(denotes(elts[i], values[i]));
        lemma_literals_keep_their_values(elts[i], values[i], context);
        lemma_literals_from(elts, i + 1, done.push(values[i]), values, context);
        assert(done.push(values[i]) + values.skip(i + 1) =~= done + values.skip(i));
    } else {
        assert(done + values.skip(i) =~= done);
    }
}

/// Under `parametrize` with one argument, values may be written down among the arguments or be
/// given by the name of a list that holds them: the cases and their IDs are the same.
pub proof fn lemma_named_list_gives_the_same_cases(
    stmts: Seq<StmtView>,
    path: Seq<Seq<char>>,
    follows_imports: bool,
    i: int,
    name: Seq<char>,
    elts: Seq<ExprView>,
    values: Seq<ValueView>,
    argnames: Seq<Seq<char>>,
)
    requires
        is_last_assignment(stmts, i, name),
        assigned(stmts[i]) == ExprView::List(elts) || assigned(stmts[i]) == ExprView::Tuple(elts),
        all_denote(elts, values),
        argnames.len() == 1,
    ensures
        ({
            let context = ContextView {
                resolver: Some(fresh_resolver(stmts, path, follows_imports)),
                enclosing_class: None,
                style: ParamIdStyle::RuntimeValue,
            };
            let named = context.argvalues(ExprView::Name(name), argnames);
            &&& named == context.argvalues(ExprView::List(elts), argnames)
            &&& named is Ok
            &&& named->Ok_0.0 == values
            &&& all_show(values, named->Ok_0.1)
        }),
{
    let context = ContextView {
        resolver: Some(fresh_resolver(stmts, path, follows_imports)),
        enclosing_class: None,
        style: ParamIdStyle::RuntimeValue,
    };
    lemma_literals_from(elts, 0, seq![], values, context);
    assert(Seq::<ValueView>::empty() + values.skip(0) =~= values);
    lemma_module_constant_gives_cases(
        stmts,
        path,
        follows_imports,
        i,
        name,
        ParamIdStyle::RuntimeValue,
        argnames,
        values,
    );
    lemma_literals_give_cases(context, elts, argnames, values);
    lemma_listed_literals(context, elts, 0, argnames, values, seq![], seq![]);
    let ids = context.argvalues(ExprView::List(elts), argnames)->Ok_0.1;
    let named = context.argvalues(ExprView::Name(name), argnames)->Ok_0.1;
    assert forall|k: int| 0 <= k < values.len() implies named[k] == ids[k] by {
        assert(denotes(elts[k], values[k]));
        assert(ids[k] == value_id(values[k]));
    }
    assert(named =~= ids);
}

proof fn lemma_component_literals(
    context: ContextView,
    elts: Seq<ExprView>,
    i: int,
    argnames: Seq<Seq<char>>,
    case: nat,
    values: Seq<ValueView>,
    done_values: Seq<ValueView>,
    done_ids: Seq<Seq<char>>,
)
    requires
        0 <= i <= elts.len(),
        all_denote(elts, values),
    ensures
        context.component_cases(elts, i, argnames, case, done_values, done_ids) == Ok::<
            (Seq<ValueView>, Seq<Seq<char>>),
            ObstacleView,
        >(
            (
                done_values + values.skip(i),
                done_ids + Seq::new(
                    (values.len() - i) as nat,
                    |k: int| value_id(values[i + k]),
                ),
            ),
        ),
    decreases elts.len() - i,
{
    let rest = Seq::new((values.len() - i) as nat, |k: int| value_id(values[i + k]));
    if i < elts.len() {
        let (e, value) = (elts[i], values[i]);
        assert(denotes(e, value));
        lemma_literals_keep_their_values(e, value, context);
        let id = value_id(value);
        lemma_component_literals(
            context,
            elts,
            i + 1,
            argnames,
            case,
            values,
            done_values.push(value),
            done_ids.push(id),
        );
        let more = Seq::new((values.len() - (i + 1)) as nat, |k: int| value_id(values[i + 1 + k]));
        assert(done_values.push(value) + values.skip(i + 1) =~= done_values + values.skip(i));
        assert(done_ids.push(id) + more =~= done_ids + rest);
    } else {
        assert(done_values + values.skip(i) =~= done_values);
        assert(done_ids + rest =~= done_ids);
    }
}

/// Under `parametrize` with several arguments, a tuple or list of literals is one case: the value
/// of each argument, and their texts with dashes between them as the ID.
pub proof fn lemma_tuple_of_literals_is_one_case(
    context: ContextView,
    elts: Seq<ExprView>,
    argnames: Seq<Seq<char>>,
    number: nat,
    values: Seq<ValueView>,
) -> (ids: Seq<Seq<char>>)
    requires
        context.style == ParamIdStyle::RuntimeValue,
        argnames.len() > 1,
        all_denote(elts, values),
    ensures
        all_show(values, ids),
        context.pytest_case(ExprView::Tuple(elts), argnames, number) == Ok::<
            (ValueView, Seq<char>),
            ObstacleView,
        >((ValueView::Sequence(values), joined(ids, "-"@))),
        context.pytest_case(ExprView::List(elts), argnames, number) == Ok::<
            (ValueView, Seq<char>),
            ObstacleView,
        >((ValueView::Sequence(values), joined(ids, "-"@))),
{
    lemma_component_literals(context, elts, 0, argnames, number, values, seq![], seq![]);
    let ids = Seq::new(values.len(), |k: int| value_id(values[k]));
    let rest = Seq::new((values.len() - 0) as nat, |k: int| value_id(values[0 + k]));
    assert(Seq::<Seq<char>>::empty() + rest =~= ids);
    assert(Seq::<ValueView>::empty() + values.skip(0) =~= values);
    assert forall|i: int| 0 <= i < ids.len() implies shows(values[i], #[trigger] ids[i]) by {
        assert(denotes(elts[i], values[i]));
        lemma_ids_of_literals(values[i]);
    }
    ids
}

/// One case for each element, in order: each is what the element gives on its own.
pub proof fn lemma_cases_are_those_of_the_elements(
    context: ContextView,
    elts: Seq<ExprView>,
    argnames: Seq<Seq<char>>,
    k: int,
)
    requires
        context.style == ParamIdStyle::RuntimeValue,
        context.argvalues(ExprView::List(elts), argnames) is Ok,
        0 <= k < elts.len(),
    ensures
        ({
            let (values, ids) = context.argvalues(ExprView::List(elts), argnames)->Ok_0;
            &&& values.len() == elts.len() && ids.len() == elts.len()
            &&& context.pytest_case(elts[k], argnames, k as nat) == Ok::<
                (ValueView, Seq<char>),
                ObstacleView,
            >((values[k], ids[k]))
        }),
{
    lemma_listed_at(context, elts, 0, argnames, seq![], seq![], k);
}

proof fn lemma_listed_at(
    context: ContextView,
    elts: Seq<ExprView>,
    i: int,
    argnames: Seq<Seq<char>>,
    values: Seq<ValueView>,
    ids: Seq<Seq<char>>,
    k: int,
)
    requires
        context.style == ParamIdStyle::RuntimeValue,
        0 <= i <= elts.len(),
        0 <= k < elts.len(),
        values.len() == i,
        ids.len() == i,
        context.listed_cases(elts, i, argnames, values, ids) is Ok,
        k < i ==> context.pytest_case(elts[k], argnames, k as nat) == Ok::<
            (ValueView, Seq<char>),
            ObstacleView,
        >((values[k], ids[k])),
    ensures
        ({
            let (all, all_ids) = context.listed_cases(elts, i, argnames, values, ids)->Ok_0;
            &&& all.len() == elts.len() && all_ids.len() == elts.len()
            &&& context.pytest_case(elts[k], argnames, k as nat) == Ok::<
                (ValueView, Seq<char>),
                ObstacleView,
            >((all[k], all_ids[k]))
        }),
    decreases elts.len() - i,
{
    if i < elts.len() {
        let (value, id) = context.pytest_case(elts[i], argnames, i as nat)->Ok_0;
        lemma_listed_at(context, elts, i + 1, argnames, values.push(value), ids.push(id), k);
    }
}

// ---------------------------------------------------------------------------------------------
// Decorators
// ---------------------------------------------------------------------------------------------
/// `<value>.<attr>`.
pub open spec fn member_of(value: ExprView, attr: Seq<char>) -> ExprView {
    ExprView::Attribute { value: Box::new(value), attr }
}

/// `parametrize` is known as an attribute of `mark`, whatever `mark` belongs to, and `cases` as
/// that of `rtest.mark`. Nothing else gives cases.
pub proof fn lemma_decorators_are_known(func: ExprView, module: ExprView)
    ensures
        style_of(member_of(member_of(module, "mark"@), "parametrize"@)) == Some(
            ParamIdStyle::RuntimeValue,
        ),
        style_of(member_of(ExprView::Name("mark"@), "parametrize"@)) == Some(
            ParamIdStyle::RuntimeValue,
        ),
        style_of(member_of(member_of(ExprView::Name("rtest"@), "mark"@), "cases"@)) == Some(
            ParamIdStyle::SourcePath,
        ),
        style_of(func) == Some(ParamIdStyle::RuntimeValue) ==> func is Attribute
            && func->Attribute_attr == "parametrize"@ && {
            ||| *func->Attribute_value == ExprView::Name("mark"@)
            ||| *func->Attribute_value is Attribute && (*func->Attribute_value)->Attribute_attr
                == "mark"@
        },
        style_of(func) == Some(ParamIdStyle::SourcePath) ==> func == member_of(
            member_of(ExprView::Name("rtest"@), "mark"@),
            "cases"@,
        ),
{
    reveal_strlit("cases");
    reveal_strlit("parametrize");
    assert("cases"@.len() == 5 && "parametrize"@.len() == 11);
}

/// Decorators that have nothing to do with cases leave a test as it is.
pub proof fn lemma_other_decorators(
    decorators: Seq<ExprView>,
    resolver: Option<ResolverView>,
    enclosing_class: Option<Seq<char>>,
)
    requires
        forall|i: int|
            0 <= i < decorators.len() ==> !((#[trigger] decorators[i]) is Call) || style_of(
                *decorators[i]->Call_func,
            ) is None,
    ensures
        decorators_expansion(decorators, resolver, enclosing_class) == Ok::<
            ExpansionView,
            Seq<Seq<char>>,
        >(ExpansionView::NotDecorated),
{
    lemma_no_specs(decorators, 0, resolver, enclosing_class);
}

proof fn lemma_no_specs(
    decorators: Seq<ExprView>,
    i: int,
    resolver: Option<ResolverView>,
    enclosing_class: Option<Seq<char>>,
)
    requires
        0 <= i,
        forall|i: int|
            0 <= i < decorators.len() ==> !((#[trigger] decorators[i]) is Call) || style_of(
                *decorators[i]->Call_func,
            ) is None,
    ensures
        specs_from(decorators, i, resolver, enclosing_class, seq![]) == Ok::<
            Seq<SpecView>,
            ObstacleView,
        >(seq![]),
    decreases decorators.len() - i,
{
    if i < decorators.len() {
        assert(!(decorators[i] is Call) || style_of(*decorators[i]->Call_func) is None);
        lemma_no_specs(decorators, i + 1, resolver, enclosing_class);
    }
}

/// A test with one decorator that gives cases is expanded into these, with the IDs that they have
/// there, as long as no two are the same.
pub proof fn lemma_single_decorator_expands(
    func: ExprView,
    names: ExprView,
    values: ExprView,
    resolver: Option<ResolverView>,
    enclosing_class: Option<Seq<char>>,
    style: ParamIdStyle,
    argnames: Seq<Seq<char>>,
    found: Seq<ValueView>,
    ids: Seq<Seq<char>>,
)
    requires
        style_of(func) == Some(style),
        argnames_of(names) == Ok::<Seq<Seq<char>>, ObstacleView>(argnames),
        (ContextView { resolver, enclosing_class, style }).argvalues(values, argnames) == Ok::<
            (Seq<ValueView>, Seq<Seq<char>>),
            ObstacleView,
        >((found, ids)),
        ids.no_duplicates(),
    ensures
        decorators_expansion(
            seq![decorator(func, names, values, seq![])],
            resolver,
            enclosing_class,
        ) == Ok::<ExpansionView, Seq<Seq<char>>>(ExpansionView::Expanded(ids)),
{
    let e = decorator(func, names, values, seq![]);
    let spec = SpecView { argnames, argvalues: found, value_ids: ids, ids: None };
    assert(seq![names, values][0] == names && seq![names, values][1] == values);
    assert(decorator_spec(e, resolver, enclosing_class) == Ok::<Option<SpecView>, ObstacleView>(
        Some(spec),
    ));
    assert(seq![e][0] == e);
    reveal_with_fuel(specs_from, 2);
    assert(Seq::<SpecView>::empty().push(spec) =~= seq![spec]);
    lemma_single_decorator(spec);
}

/// Explicit IDs of a decorator stand for the cases in order; a case behind the last of them is
/// known by its number.
pub proof fn lemma_explicit_ids(spec: SpecView, i: int)
    requires
        0 <= i < spec.argvalues.len(),
        spec.ids is None ==> spec.value_ids.len() == spec.argvalues.len(),
    ensures
        spec_ids(spec).len() == spec.argvalues.len(),
        spec.ids is None ==> spec_ids(spec)[i] == spec.value_ids[i],
        spec.ids is Some && i < spec.ids->0.len() ==> spec_ids(spec)[i] == spec.ids->0[i],
        spec.ids is Some && i >= spec.ids->0.len() ==> all_digits(spec_ids(spec)[i])
            && digits_value(spec_ids(spec)[i]) == i,
{
    lemma_digits_of_number(i as nat);
}

/// A list of texts behind `ids=` gives these texts as IDs, in order.
pub proof fn lemma_ids_argument(
    context: ContextView,
    keywords: Seq<KeywordView>,
    k: int,
    elts: Seq<ExprView>,
    list: Seq<Seq<char>>,
)
    requires
        context.style == ParamIdStyle::RuntimeValue,
        0 <= k < keywords.len(),
        keywords[k] == (KeywordView { arg: Some("ids"@), value: ExprView::List(elts) }),
        forall|j: int| 0 <= j < k ==> (#[trigger] keywords[j]).arg != Some("ids"@),
        are_strings(elts, list),
    ensures
        context.custom_ids(keywords, 0) == Ok::<Option<Seq<Seq<char>>>, Seq<Seq<char>>>(Some(list)),
{
    lemma_ids_found(context, keywords, 0, k, elts, list);
}

proof fn lemma_ids_found(
    context: ContextView,
    keywords: Seq<KeywordView>,
    i: int,
    k: int,
    elts: Seq<ExprView>,
    list: Seq<Seq<char>>,
)
    requires
        context.style == ParamIdStyle::RuntimeValue,
        0 <= i <= k < keywords.len(),
        keywords[k] == (KeywordView { arg: Some("ids"@), value: ExprView::List(elts) }),
        forall|j: int| 0 <= j < k ==> (#[trigger] keywords[j]).arg != Some("ids"@),
        are_strings(elts, list),
    ensures
        context.custom_ids(keywords, i) == Ok::<Option<Seq<Seq<char>>>, Seq<Seq<char>>>(Some(list)),
    decreases k - i,
{
    if i < k {
        assert(keywords[i].arg != Some("ids"@));
        lemma_ids_found(context, keywords, i + 1, k, elts, list);
    } else {
        lemma_listed_strings(context, elts, 0, seq![], list);
        assert(Seq::<Seq<char>>::empty() + list.skip(0) =~= list);
    }
}

proof fn lemma_listed_strings(
    context: ContextView,
    elts: Seq<ExprView>,
    i: int,
    done: Seq<Seq<char>>,
    list: Seq<Seq<char>>,
)
    requires
        0 <= i <= elts.len(),
        are_strings(elts, list),
    ensures
        context.listed_ids(elts, i, done) == Ok::<Option<Seq<Seq<char>>>, Seq<Seq<char>>>(
            Some(done + list.skip(i)),
        ),
    decreases elts.len() - i,
{
    if i < elts.len() {
        assert(elts[i] == ExprView::StringLiteral(list[i]));
        lemma_listed_strings(context, elts, i + 1, done.push(list[i]), list);
        assert(done.push(list[i]) + list.skip(i + 1) =~= done + list.skip(i));
    } else {
        assert(done + list.skip(i) =~= done);
    }
}

// ---------------------------------------------------------------------------------------------
// Values without a text
// ---------------------------------------------------------------------------------------------
/// The ID is the name of the argument at that position, followed by the number of the case.
pub open spec fn is_numbered(
    id: Seq<char>,
    argnames: Seq<Seq<char>>,
    position: int,
    case: nat,
) -> bool {
    let name = if 0 <= position < argnames.len() {
        argnames[position]
    } else {
        "arg"@
    };
    &&& name.is_prefix_of(id)
    &&& id.len() > name.len()
    &&& all_digits(id.skip(name.len() as int))
    &&& digits_value(id.skip(name.len() as int)) == case
}

/// What has no text of its own is known by its argument and the number of its case.
pub proof fn lemma_positional_ids(argnames: Seq<Seq<char>>, position: int, case: nat)
    ensures
        is_numbered(positional(argnames, position, case), argnames, position, case),
{
    let id = positional(argnames, position, case);
    let name = if 0 <= position < argnames.len() {
        argnames[position]
    } else {
        "arg"@
    };
    lemma_digits_of_number(case);
    assert(id.skip(name.len() as int) =~= nat_text(case));
    assert(name =~= id.take(name.len() as int));
}

/// A call that is no `param(...)`, and for `parametrize` a list or tuple as the value of a single
/// argument, is known by its argument and the number of its case.
pub proof fn lemma_opaque_values_are_numbered(
    context: ContextView,
    e: ExprView,
    argnames: Seq<Seq<char>>,
    number: nat,
)
    requires
        argnames.len() == 1,
        context.style == ParamIdStyle::RuntimeValue,
        match e {
            ExprView::Call { func, .. } => !calls_param(*func),
            ExprView::List(_) => true,
            ExprView::Tuple(_) => true,
            ExprView::Other => true,
            ExprView::Subscript { .. } => true,
            _ => false,
        },
    ensures
        context.pytest_case(e, argnames, number) matches Ok((value, id)) && value is Opaque
            && is_numbered(id, argnames, 0, number),
{
    lemma_positional_ids(argnames, 0, number);
    let parts = context.literal_parts(e)->Ok_0.1;
    let id = positional(argnames, 0, number);
    let ids = Seq::new(
        parts.len(),
        |i: int|
            if parts[i].is_opaque {
                positional(argnames, i, number)
            } else {
                parts[i].text
            },
    );
    assert(ids =~= seq![id]);
    assert(joined(ids, "-"@) == id);
}

/// Under `parametrize` with several arguments, each element of a tuple that has no text of its own
/// is known by the argument at its place and the number of the case; the others keep their texts.
pub proof fn lemma_parts_of_a_tuple(
    context: ContextView,
    elts: Seq<ExprView>,
    argnames: Seq<Seq<char>>,
    number: nat,
    k: int,
) -> (ids: Seq<Seq<char>>)
    requires
        context.style == ParamIdStyle::RuntimeValue,
        argnames.len() > 1,
        0 <= k < elts.len(),
        context.pytest_case(ExprView::Tuple(elts), argnames, number) is Ok,
    ensures
        ids.len() == elts.len(),
        context.pytest_case(ExprView::Tuple(elts), argnames, number)->Ok_0.1 == joined(ids, "-"@),
        context.pytest_case(ExprView::Tuple(elts), argnames, number)->Ok_0.0 is Sequence,
        ({
            let own = context.literal_parts(elts[k]);
            let all = context.pytest_case(ExprView::Tuple(elts), argnames, number)->Ok_0.0;
            &&& own is Ok
            &&& all->Sequence_0.len() == elts.len()
            &&& all->Sequence_0[k] == own->Ok_0.0
            &&& own->Ok_0.1.len() == 1 ==> if own->Ok_0.1[0].is_opaque {
                is_numbered(ids[k], argnames, k, number)
            } else {
                ids[k] == own->Ok_0.1[0].text
            }
        }),
{
    let (values, ids) = context.component_cases(
        elts,
        0,
        argnames,
        number,
        seq![],
        seq![],
    )->Ok_0;
    lemma_positional_ids(argnames, k, number);
    lemma_components_at(context, elts, 0, argnames, number, seq![], seq![], k);
    let own = context.literal_parts(elts[k])->Ok_0.1;
    if own.len() == 1 {
        assert(part_texts(own) =~= seq![own[0].text]);
        assert(joined(part_texts(own), "-"@) == own[0].text);
    }
    ids
}

proof fn lemma_components_at(
    context: ContextView,
    elts: Seq<ExprView>,
    i: int,
    argnames: Seq<Seq<char>>,
    case: nat,
    values: Seq<ValueView>,
    ids: Seq<Seq<char>>,
    k: int,
)
    requires
        0 <= i <= elts.len(),
        0 <= k < elts.len(),
        values.len() == i,
        ids.len() == i,
        context.component_cases(elts, i, argnames, case, values, ids) is Ok,
        k < i ==> component_is(context, elts[k], argnames, k, case, values[k], ids[k]),
    ensures
        ({
            let (all, all_ids) = context.component_cases(
                elts,
                i,
                argnames,
                case,
                values,
                ids,
            )->Ok_0;
            &&& all.len() == elts.len() && all_ids.len() == elts.len()
            &&& component_is(context, elts[k], argnames, k, case, all[k], all_ids[k])
        }),
    decreases elts.len() - i,
{
    if i < elts.len() {
        let (value, own) = context.literal_parts(elts[i])->Ok_0;
        let id = if own.len() == 1 && own[0].is_opaque {
            positional(argnames, i, case)
        } else {
            joined(part_texts(own), "-"@)
        };
        lemma_components_at(
            context,
            elts,
            i + 1,
            argnames,
            case,
            values.push(value),
            ids.push(id),
            k,
        );
    }
}

spec fn component_is(
    context: ContextView,
    e: ExprView,
    argnames: Seq<Seq<char>>,
    k: int,
    case: nat,
    value: ValueView,
    id: Seq<char>,
) -> bool {
    context.literal_parts(e) matches Ok((found, own)) && {
        &&& value == found
        &&& id == if own.len() == 1 && own[0].is_opaque {
            positional(argnames, k, case)
        } else {
            joined(part_texts(own), "-"@)
        }
    }
}

/// The cases of a named list under `cases` are known by the name of the list, with the text of the
/// element in brackets. Under `parametrize` the elements are known by their texts; a sequence is
/// known by the texts of its elements where there are several arguments, and what has no text by
/// its argument and the number of its case.
pub proof fn lemma_ids_of_named_cases(
    name: Seq<char>,
    values: Seq<ValueView>,
    argnames: Seq<Seq<char>>,
    i: int,
)
    requires
        0 <= i < values.len(),
    ensures
        indexed_ids(name, values).len() == values.len(),
        indexed_ids(name, values)[i] == name + seq!['['] + value_id(values[i]) + seq![']'],
        resolved_case_ids(values, argnames).len() == values.len(),
        !(values[i] is Sequence) && !(values[i] is Opaque) ==> resolved_case_ids(
            values,
            argnames,
        )[i] == value_id(values[i]),
        values[i] is Opaque || (values[i] is Sequence && argnames.len() <= 1) ==> is_numbered(
            resolved_case_ids(values, argnames)[i],
            argnames,
            0,
            i as nat,
        ),
{
    lemma_positional_ids(argnames, 0, i as nat);
}

/// Under `parametrize` with several arguments, a sequence of a named list is known by the texts of
/// its elements, with dashes between them.
pub proof fn lemma_ids_of_named_tuples(
    values: Seq<ValueView>,
    argnames: Seq<Seq<char>>,
    i: int,
    k: int,
) -> (ids: Seq<Seq<char>>)
    requires
        argnames.len() > 1,
        0 <= i < values.len(),
        values[i] is Sequence,
        0 <= k < values[i]->Sequence_0.len(),
    ensures
        ids.len() == values[i]->Sequence_0.len(),
        resolved_case_ids(values, argnames)[i] == joined(ids, "-"@),
        ({
            let part = values[i]->Sequence_0[k];
            if part is Sequence || part is Opaque {
                is_numbered(ids[k], argnames, k, i as nat)
            } else {
                ids[k] == value_id(part)
            }
        }),
{
    let parts = values[i]->Sequence_0;
    lemma_positional_ids(argnames, k, i as nat);
    Seq::new(
        parts.len(),
        |j: int| part_id(parts[j], argnames, j, i as nat),
    )
}

// ---------------------------------------------------------------------------------------------
// `param(...)`
// ---------------------------------------------------------------------------------------------
/// `param(...)` may be an attribute of anything, and nothing else is taken for it.
pub proof fn lemma_param_calls(module: ExprView, name: Seq<char>)
    ensures
        calls_param(member_of(module, "param"@)),
        calls_param(ExprView::Name("param"@)),
        name != "param"@ ==> !calls_param(ExprView::Name(name)) && !calls_param(
            member_of(module, name),
        ),
{
}

/// The text of the argument `id` is the first text that is given under that name.
pub proof fn lemma_id_argument(
    keywords: Seq<KeywordView>,
    name: Seq<char>,
    i: int,
    k: int,
    text: Seq<char>,
)
    requires
        0 <= i <= k < keywords.len(),
        keywords[k] == (KeywordView { arg: Some(name), value: ExprView::StringLiteral(text) }),
        forall|j: int| i <= j < k ==> (#[trigger] keywords[j]).arg != Some(name),
    ensures
        text_kwarg(keywords, name, i) == Some(text),
    decreases k - i,
{
    if i < k {
        assert(keywords[i].arg != Some(name));
        lemma_id_argument(keywords, name, i + 1, k, text);
    }
}

proof fn lemma_lists_of_literals(
    context: ContextView,
    elts: Seq<ExprView>,
    i: int,
    values: Seq<ValueView>,
    done: Seq<ValueView>,
    parts: Seq<PartView>,
)
    requires
        0 <= i <= elts.len(),
        all_denote(elts, values),
    ensures
        context.literal_lists(elts, i, done, parts) == Ok::<
            (Seq<ValueView>, Seq<PartView>),
            ObstacleView,
        >(
            (
                done + values.skip(i),
                parts + Seq::new(
                    (values.len() - i) as nat,
                    |k: int| PartView { text: value_id(values[i + k]), is_opaque: false },
                ),
            ),
        ),
    decreases elts.len() - i,
{
    let rest = Seq::new(
        (values.len() - i) as nat,
        |k: int| PartView { text: value_id(values[i + k]), is_opaque: false },
    );
    if i < elts.len() {
        assert(denotes(elts[i], values[i]));
        lemma_literals_keep_their_values(elts[i], values[i], context);
        let own = context.literal_parts(elts[i])->Ok_0.1;
        let part = PartView { text: value_id(values[i]), is_opaque: false };
        assert(own =~= seq![part]);
        lemma_lists_of_literals(
            context,
            elts,
            i + 1,
            values,
            done.push(values[i]),
            parts + own,
        );
        let more = Seq::new(
            (values.len() - (i + 1)) as nat,
            |k: int| PartView { text: value_id(values[i + 1 + k]), is_opaque: false },
        );
        assert(done.push(values[i]) + values.skip(i + 1) =~= done + values.skip(i));
        assert((parts + own) + more =~= parts + rest);
    } else {
        assert(done + values.skip(i) =~= done);
        assert(parts + rest =~= parts);
    }
}

proof fn lemma_param_parts(
    context: ContextView,
    func: ExprView,
    args: Seq<ExprView>,
    values: Seq<ValueView>,
)
    requires
        calls_param(func),
        args.len() > 1,
        all_denote(args, values),
    ensures
        context.literal_parts(
            ExprView::Call { func: Box::new(func), args, keywords: seq![] },
        ) == Ok::<(ValueView, Seq<PartView>), ObstacleView>(
            (
                ValueView::Sequence(values),
                Seq::new(
                    values.len(),
                    |k: int| PartView { text: value_id(values[k]), is_opaque: false },
                ),
            ),
        ),
{
    let call = ExprView::Call { func: Box::new(func), args, keywords: seq![] };
    let none = Seq::<KeywordView>::empty();
    lemma_lists_of_literals(context, args, 0, values, seq![], seq![]);
    let rest = Seq::new(
        (values.len() - 0) as nat,
        |k: int| PartView { text: value_id(values[0 + k]), is_opaque: false },
    );
    assert(Seq::<PartView>::empty() + rest =~= Seq::new(
        values.len(),
        |k: int| PartView { text: value_id(values[k]), is_opaque: false },
    ));
    assert(Seq::<ValueView>::empty() + values.skip(0) =~= values);
    assert(text_kwarg(none, "id"@, 0) is None);
    assert(context.literal_parts(call) == context.param_parts(args, none));
}

/// `param(...)` of a single literal, without an ID, gives the case that the literal gives.
pub proof fn lemma_param_of_one(
    context: ContextView,
    func: ExprView,
    e: ExprView,
    value: ValueView,
    argnames: Seq<Seq<char>>,
    number: nat,
)
    requires
        calls_param(func),
        denotes(e, value),
    ensures
        context.pytest_case(
            ExprView::Call { func: Box::new(func), args: seq![e], keywords: seq![] },
            argnames,
            number,
        ) == context.pytest_case(e, argnames, number),
{
    let call = ExprView::Call { func: Box::new(func), args: seq![e], keywords: seq![] };
    let none = Seq::<KeywordView>::empty();
    assert(text_kwarg(none, "id"@, 0) is None);
    assert(seq![e][0] == e);
    assert(context.param_parts(seq![e], none) == context.literal_parts(e));
    assert(context.literal_parts(call) == context.literal_parts(e));
}

/// `param(...)` of several literals, without an ID, gives the case that a tuple of them gives.
pub proof fn lemma_param_of_several(
    context: ContextView,
    func: ExprView,
    args: Seq<ExprView>,
    values: Seq<ValueView>,
    argnames: Seq<Seq<char>>,
    number: nat,
)
    requires
        context.style == ParamIdStyle::RuntimeValue,
        calls_param(func),
        args.len() > 1,
        argnames.len() > 1,
        all_denote(args, values),
    ensures
        context.pytest_case(
            ExprView::Call { func: Box::new(func), args, keywords: seq![] },
            argnames,
            number,
        ) == context.pytest_case(ExprView::Tuple(args), argnames, number),
{
    let call = ExprView::Call { func: Box::new(func), args, keywords: seq![] };
    let parts = Seq::new(
        values.len(),
        |k: int| PartView { text: value_id(values[k]), is_opaque: false },
    );
    let wanted = Seq::new(values.len(), |k: int| value_id(values[k]));
    lemma_param_parts(context, func, args, values);
    lemma_known_parts_stay(parts, argnames, number);
    assert(part_texts(parts) =~= wanted);
    lemma_component_literals(context, args, 0, argnames, number, values, seq![], seq![]);
    let rest = Seq::new((values.len() - 0) as nat, |k: int| value_id(values[0 + k]));
    assert(Seq::<Seq<char>>::empty() + rest =~= wanted);
    assert(Seq::<ValueView>::empty() + values.skip(0) =~= values);
}

// ---------------------------------------------------------------------------------------------
// `cases`
// ---------------------------------------------------------------------------------------------
/// Under `cases`, a tuple or list of literals is one case: the sequence of their values, and their
/// texts with dashes between them as the ID.
pub proof fn lemma_tuple_under_cases(
    context: ContextView,
    elts: Seq<ExprView>,
    values: Seq<ValueView>,
    argnames: Seq<Seq<char>>,
    number: nat,
) -> (ids: Seq<Seq<char>>)
    requires
        context.style == ParamIdStyle::SourcePath,
        elts.len() > 0,
        all_denote(elts, values),
    ensures
        all_show(values, ids),
        context.finished_case(context.literal_parts(ExprView::Tuple(elts)), argnames, number)
            == Ok::<(ValueView, Seq<char>), ObstacleView>(
            (ValueView::Sequence(values), joined(ids, "-"@)),
        ),
        context.literal_parts(ExprView::List(elts)) == context.literal_parts(ExprView::Tuple(elts)),
{
    let parts = Seq::new(
        values.len(),
        |k: int| PartView { text: value_id(values[k]), is_opaque: false },
    );
    let ids = Seq::new(values.len(), |k: int| value_id(values[k]));
    lemma_lists_of_literals(context, elts, 0, values, seq![], seq![]);
    let rest = Seq::new(
        (values.len() - 0) as nat,
        |k: int| PartView { text: value_id(values[0 + k]), is_opaque: false },
    );
    assert(Seq::<PartView>::empty() + rest =~= parts);
    assert(Seq::<ValueView>::empty() + values.skip(0) =~= values);
    assert(context.sequence_parts(elts) == Ok::<(ValueView, Seq<PartView>), ObstacleView>(
        (ValueView::Sequence(values), parts),
    ));
    lemma_known_parts_stay(parts, argnames, number);
    assert(part_texts(parts) =~= ids);
    assert forall|i: int| 0 <= i < ids.len() implies shows(values[i], #[trigger] ids[i]) by {
        assert(denotes(elts[i], values[i]));
        lemma_ids_of_literals(values[i]);
    }
    ids
}

/// Under `cases`, a list of literals behind the first `ids=` gives their texts as IDs, in order.
pub proof fn lemma_ids_under_cases(
    context: ContextView,
    keywords: Seq<KeywordView>,
    i: int,
    k: int,
    elts: Seq<ExprView>,
    values: Seq<ValueView>,
)
    requires
        context.style == ParamIdStyle::SourcePath,
        0 <= i <= k < keywords.len(),
        keywords[k] == (KeywordView { arg: Some("ids"@), value: ExprView::List(elts) }),
        forall|j: int| i <= j < k ==> (#[trigger] keywords[j]).arg != Some("ids"@),
        elts.len() > 0,
        all_denote(elts, values),
    ensures
        context.custom_ids(keywords, i) matches Ok(Some(ids)) && all_show(values, ids),
    decreases k - i,
{
    if i < k {
        assert(keywords[i].arg != Some("ids"@));
        lemma_ids_under_cases(context, keywords, i + 1, k, elts, values);
    } else {
        let ids = lemma_tuple_under_cases(context, elts, values, seq![], 0);
        assert(context.literal_case(ExprView::List(elts))->Ok_0.0 == ValueView::Sequence(values));
        let found = value_ids(values);
        assert forall|j: int| 0 <= j < found.len() implies shows(values[j], #[trigger] found[j]) by {
            assert(denotes(elts[j], values[j]));
            lemma_ids_of_literals(values[j]);
        }
    }
}

/// Under `parametrize`, IDs that are not written down as a list leave the test unexpanded; so does
/// a decorator with fewer than two arguments, or without argument names.
pub proof fn lemma_what_is_not_expanded(
    func: ExprView,
    args: Seq<ExprView>,
    keywords: Seq<KeywordView>,
    resolver: Option<ResolverView>,
    enclosing_class: Option<Seq<char>>,
    k: int,
)
    requires
        style_of(func) == Some(ParamIdStyle::RuntimeValue),
    ensures
        ({
            let e = ExprView::Call { func: Box::new(func), args, keywords };
            let expanded = decorators_expansion(seq![e], resolver, enclosing_class);
            &&& args.len() < 2 || argnames_of(args[0]) is Err ==> !(expanded is Ok
                && expanded->Ok_0 is Expanded)
            &&& 0 <= k < keywords.len() && keywords[k].arg == Some("ids"@) && (keywords[k].value
                is Comprehension || keywords[k].value is Other) && (forall|j: int|
                0 <= j < keywords.len() && j != k ==> (#[trigger] keywords[j]).arg != Some("ids"@))
                ==> !(expanded is Ok && expanded->Ok_0 is Expanded)
        }),
{
    let e = ExprView::Call { func: Box::new(func), args, keywords };
    reveal_with_fuel(specs_from, 2);
    assert(seq![e][0] == e);
    let context = ContextView { resolver, enclosing_class, style: ParamIdStyle::RuntimeValue };
    if 0 <= k < keywords.len() && keywords[k].arg == Some("ids"@) && (keywords[k].value
        is Comprehension || keywords[k].value is Other) && (forall|j: int|
        0 <= j < keywords.len() && j != k ==> (#[trigger] keywords[j]).arg != Some("ids"@)) {
        lemma_no_ids(context, keywords, 0, k);
        assert(has_kwarg(keywords, "ids"@));
    }
}

proof fn lemma_no_ids(context: ContextView, keywords: Seq<KeywordView>, i: int, k: int)
    requires
        context.style == ParamIdStyle::RuntimeValue,
        0 <= i,
        0 <= k < keywords.len(),
        keywords[k].value is Comprehension || keywords[k].value is Other,
        forall|j: int|
            0 <= j < keywords.len() && j != k ==> (#[trigger] keywords[j]).arg != Some("ids"@),
    ensures
        context.custom_ids(keywords, i) == Ok::<Option<Seq<Seq<char>>>, Seq<Seq<char>>>(None),
    decreases keywords.len() - i,
{
    if i < keywords.len() {
        if i != k {
            assert(keywords[i].arg != Some("ids"@));
        }
        lemma_no_ids(context, keywords, i + 1, k);
    }
}

// ---------------------------------------------------------------------------------------------
// Stacked decorators
// ---------------------------------------------------------------------------------------------
/// Each decorator that gives cases adds its specification behind those of the decorators above it, and
/// other decorators add none.
pub proof fn lemma_specs_in_order(
    decorators: Seq<ExprView>,
    i: int,
    resolver: Option<ResolverView>,
    enclosing_class: Option<Seq<char>>,
    done: Seq<SpecView>,
)
    requires
        0 <= i < decorators.len(),
    ensures
        match decorator_spec(decorators[i], resolver, enclosing_class) {
            Ok(Some(spec)) => specs_from(decorators, i, resolver, enclosing_class, done)
                == specs_from(decorators, i + 1, resolver, enclosing_class, done.push(spec)),
            Ok(None) => specs_from(decorators, i, resolver, enclosing_class, done) == specs_from(
                decorators,
                i + 1,
                resolver,
                enclosing_class,
                done,
            ),
            Err(why) => specs_from(decorators, i, resolver, enclosing_class, done) == Err::<
                Seq<SpecView>,
                ObstacleView,
            >(why),
        },
        specs_from(decorators, decorators.len() as int, resolver, enclosing_class, done) == Ok::<
            Seq<SpecView>,
            ObstacleView,
        >(done),
{
}

} // verus!
