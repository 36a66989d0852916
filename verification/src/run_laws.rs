//! What a run makes of the project's settings, its arguments and the outcomes of its parts.

use crate::cli::args::{
    processes_named, workers, NumProcesses,
};
use crate::collection::error::ErrorView;
use crate::config::{array_under, ini_options, settings_of, strings_in, TomlView};
use crate::display_laws::{lemma_part_of_sum, said_by};
use crate::runner::{
    assignment, assignment_warnings, assignments, failure_text, last_failure, list_output,
    one_per_line, texts_or,
};
use crate::strings::{
    has_part, joined, lemma_digits_of_number, lemma_first_place_is_first,
    lemma_joined_is_split_back, lemma_number_is_read_back, nat_text, pieces, stands_at,
};
use vstd::prelude::*;

verus! {

// ---------------------------------------------------------------------------------------------
// Settings
// ---------------------------------------------------------------------------------------------
/// The value is an array of these texts.
pub open spec fn is_list_of(value: TomlView, list: Seq<Seq<char>>) -> bool {
    value is List && value->List_0.len() == list.len() && forall|i: int|
        0 <= i < list.len() ==> #[trigger] value->List_0[i] == TomlView::Text(list[i])
}

/// The table has the value under the key.
pub open spec fn has_under(table: TomlView, key: Seq<char>, value: TomlView) -> bool {
    table is Table && table->Table_0.dom().contains(key) && table->Table_0[key] == value
}

proof fn lemma_strings_in(values: Seq<TomlView>, list: Seq<Seq<char>>)
    requires
        values.len() == list.len(),
        forall|i: int| 0 <= i < list.len() ==> #[trigger] values[i] == TomlView::Text(list[i]),
    ensures
        strings_in(values) == list,
    decreases list.len(),
{
    if list.len() > 0 {
        let front = values.drop_last();
        assert forall|i: int| 0 <= i < list.drop_last().len() implies #[trigger] front[i]
            == TomlView::Text(list.drop_last()[i]) by {
            assert(front[i] == values[i]);
        }
        lemma_strings_in(front, list.drop_last());
        assert(values.last() == values[list.len() - 1]);
        assert(strings_in(values) =~= list);
    } else {
        assert(strings_in(values) =~= list);
    }
}

/// The settings of a project are the arrays of texts under `tool.pytest.ini_options`, each under
/// its own name, with their elements in order.
pub proof fn lemma_settings_are_read(
    document: TomlView,
    tool: TomlView,
    pytest: TomlView,
    options: TomlView,
    value: TomlView,
    list: Seq<Seq<char>>,
)
    requires
        has_under(document, "tool"@, tool),
        has_under(tool, "pytest"@, pytest),
        has_under(pytest, "ini_options"@, options),
        is_list_of(value, list),
    ensures
        has_under(options, "testpaths"@, value) ==> settings_of(document).testpaths == list,
        has_under(options, "python_files"@, value) ==> settings_of(document).python_files == list,
        has_under(options, "python_classes"@, value) ==> settings_of(document).python_classes
            == list,
        has_under(options, "python_functions"@, value) ==> settings_of(document).python_functions
            == list,
{
    lemma_strings_in(value->List_0, list);
    assert(ini_options(document) == Some(options));
}

/// What is no array under its name is not set. Elements that are no texts are left out, and the
/// others keep their order.
pub proof fn lemma_other_settings_are_left_out(
    options: TomlView,
    key: Seq<char>,
    a: Seq<TomlView>,
    b: Seq<TomlView>,
)
    ensures
        !(options is Table) || !options->Table_0.dom().contains(key)
            || !(options->Table_0[key] is List) ==> array_under(Some(options), key).len() == 0,
        array_under(None, key).len() == 0,
        strings_in(a + b) == strings_in(a) + strings_in(b),
        a.len() == 1 && !(a[0] is Text) ==> strings_in(a).len() == 0,
    decreases b.len(),
{
    if a.len() == 1 {
        assert(a.drop_last() =~= Seq::<TomlView>::empty());
        assert(a.last() == a[0]);
        assert(strings_in(a.drop_last()).len() == 0);
    }
    if b.len() == 0 {
        assert(a + b =~= a);
        assert(strings_in(a) + strings_in(b) =~= strings_in(a));
    } else {
        lemma_other_settings_are_left_out(options, key, a, b.drop_last());
        assert((a + b).drop_last() =~= a + b.drop_last());
        assert((a + b).last() == b.last());
        assert(strings_in(a + b) =~= strings_in(a) + strings_in(b));
    }
}

/// What the project sets is used, and else the default.
pub proof fn lemma_settings_or_defaults(configured: Seq<Seq<char>>, defaults: Seq<Seq<char>>)
    ensures
        configured.len() > 0 ==> texts_or(configured, defaults) == configured,
        configured.len() == 0 ==> texts_or(configured, defaults) == defaults,
{
}

// ---------------------------------------------------------------------------------------------
// Workers
// ---------------------------------------------------------------------------------------------
/// As many workers are used as were asked for: a number by its digits, all cores by `auto` and
/// `logical`, and one without any word. There are never more than the maximum, where that is not
/// zero, and never none.
pub proof fn lemma_as_many_workers_as_asked_for(n: usize, max: Option<usize>, cores: usize)
    ensures
        processes_named(nat_text(n as nat)) == Ok::<NumProcesses, Seq<char>>(
            NumProcesses::Count(n),
        ),
        processes_named("auto"@) == Ok::<NumProcesses, Seq<char>>(NumProcesses::Auto),
        processes_named("logical"@) == Ok::<NumProcesses, Seq<char>>(NumProcesses::Logical),
        n > 0 && (max is None || n <= max->0) ==> workers(
            Some(NumProcesses::Count(n)),
            max,
            cores,
        ) == n,
        max is Some && 0 < max->0 <= n ==> workers(Some(NumProcesses::Count(n)), max, cores)
            == max->0,
        workers(Some(NumProcesses::Auto), max, cores) == workers(
            Some(NumProcesses::Count(cores)),
            max,
            cores,
        ),
        workers(Some(NumProcesses::Logical), max, cores) == workers(
            Some(NumProcesses::Count(cores)),
            max,
            cores,
        ),
        workers(None, max, cores) == 1,
        workers(Some(NumProcesses::Count(0)), max, cores) == 1,
{
    let text = nat_text(n as nat);
    lemma_number_is_read_back(n);
    lemma_digits_of_number(n as nat);
    reveal_strlit("auto");
    reveal_strlit("logical");
    assert("auto"@[0] == 'a' && "logical"@[0] == 'l');
    assert("auto"@.len() == 4 && "logical"@.len() == 7);
    assert(crate::strings::is_digit(text[0]));
}

// ---------------------------------------------------------------------------------------------
// Environment variables
// ---------------------------------------------------------------------------------------------
/// `KEY=VALUE` sets the variable before the first sign to what stands behind it; a text without a
/// sign sets none.
pub proof fn lemma_assignment(key: Seq<char>, value: Seq<char>)
    requires
        !key.contains('='),
    ensures
        assignment(key + seq!['='] + value) == Some((key, value)),
        assignment(key) is None,
{
    let s = key + seq!['='] + value;
    let sign = "="@;
    let n = key.len() as int;
    reveal_strlit("=");
    assert(sign =~= seq!['=']);
    assert(s.subrange(n, n + 1) =~= sign);
    assert(stands_at(s, sign, n));
    assert forall|j: int| 0 <= j < n implies !stands_at(s, sign, j) by {
        if stands_at(s, sign, j) {
            assert(s.subrange(j, j + 1)[0] == s[j]);
            assert(key[j] == '=');
        }
    }
    lemma_first_place_is_first(s, sign, 0, n);
    assert(s.take(n) =~= key);
    assert(s.skip(n + 1) =~= value);
    lemma_no_sign(key, 0);
}

proof fn lemma_no_sign(key: Seq<char>, from: int)
    requires
        0 <= from,
        !key.contains('='),
    ensures
        crate::strings::first_place(key, "="@, from) is None,
    decreases key.len() - from,
{
    reveal_strlit("=");
    assert("="@ =~= seq!['=']);
    if from + 1 <= key.len() {
        if stands_at(key, "="@, from) {
            assert(key.subrange(from, from + 1)[0] == key[from]);
        }
        lemma_no_sign(key, from + 1);
    }
}

/// Every variable that is given is set, in order, and every other text is warned of, in order.
pub proof fn lemma_variables_in_order(a: Seq<Seq<char>>, b: Seq<Seq<char>>)
    ensures
        assignments(a + b) == assignments(a) + assignments(b),
        assignment_warnings(a + b) == assignment_warnings(a) + assignment_warnings(b),
        a.len() == 1 ==> match assignment(a[0]) {
            Some(pair) => assignments(a) == seq![pair] && assignment_warnings(a).len() == 0,
            None => assignments(a).len() == 0 && assignment_warnings(a).len() == 1 && has_part(
                assignment_warnings(a)[0],
                a[0],
            ),
        },
    decreases b.len(),
{
    if a.len() == 1 {
        assert(a.drop_last() =~= Seq::<Seq<char>>::empty());
        assert(a.last() == a[0]);
        assert(assignments(a.drop_last()).len() == 0);
        assert(assignment_warnings(a.drop_last()).len() == 0);
        if let Some(pair) = assignment(a[0]) {
            assert(assignments(a) =~= seq![pair]);
        } else {
            let lead = "Warning: Invalid environment variable format: "@;
            lemma_part_of_sum(lead, a[0], seq![]);
            assert(lead + a[0] + Seq::<char>::empty() =~= lead + a[0]);
        }
    }
    if b.len() == 0 {
        assert(a + b =~= a);
        assert(assignments(a) + assignments(b) =~= assignments(a));
        assert(assignment_warnings(a) + assignment_warnings(b) =~= assignment_warnings(a));
    } else {
        lemma_variables_in_order(a, b.drop_last());
        assert((a + b).drop_last() =~= a + b.drop_last());
        assert((a + b).last() == b.last());
        assert(assignments(a + b) =~= assignments(a) + assignments(b));
        assert(assignment_warnings(a + b) =~= assignment_warnings(a) + assignment_warnings(b));
    }
}

// ---------------------------------------------------------------------------------------------
// Ends of a run
// ---------------------------------------------------------------------------------------------
/// A run of several parts ends with the code of the last part that failed.
pub proof fn lemma_last_failure_decides(codes: Seq<i32>, k: int)
    requires
        0 <= k < codes.len(),
        codes[k] != 0,
        forall|i: int| k < i < codes.len() ==> #[trigger] codes[i] == 0,
    ensures
        last_failure(codes) == codes[k],
    decreases codes.len(),
{
    if k < codes.len() - 1 {
        assert(codes[codes.len() - 1] == 0);
        let front = codes.drop_last();
        assert forall|i: int| k < i < front.len() implies #[trigger] front[i] == 0 by {
            assert(codes[i] == 0);
        }
        lemma_last_failure_decides(front, k);
    }
}

/// The words on a collection that failed hold what the error says.
pub proof fn lemma_failure_words(error: ErrorView)
    ensures
        has_part(failure_text(error), said_by(error)),
{
    let all = failure_text(error);
    let said = said_by(error);
    let lead = all.take(all.len() - said.len());
    assert(all =~= lead + said + Seq::<char>::empty());
    lemma_part_of_sum(lead, said, seq![]);
}

// ---------------------------------------------------------------------------------------------
// Lists in files
// ---------------------------------------------------------------------------------------------
proof fn lemma_lines_are_joined(items: Seq<Seq<char>>)
    ensures
        one_per_line(items) == joined(items.push(seq![]), seq!['\n']),
    decreases items.len(),
{
    let all = items.push(Seq::<char>::empty());
    assert(all.drop_last() =~= items);
    if items.len() == 0 {
        assert(one_per_line(items) =~= joined(all, seq!['\n']));
    } else {
        let front = items.drop_last();
        lemma_lines_are_joined(front);
        let earlier = front.push(Seq::<char>::empty());
        assert(earlier.drop_last() =~= front);
        if front.len() > 0 {
            let a = joined(front, seq!['\n']);
            let b = items.last();
            assert(one_per_line(front) =~= a + seq!['\n']);
            assert(joined(items, seq!['\n']) == a + seq!['\n'] + b);
        } else {
            assert(one_per_line(front) =~= Seq::<char>::empty());
            assert(joined(items, seq!['\n']) == items[0]);
        }
        assert(one_per_line(items) =~= joined(all, seq!['\n']));
    }
}

/// A list in a file has one item on each line: the lines of the file, each with its end, are the
/// items.
pub proof fn lemma_file_holds_the_items(items: Seq<Seq<char>>)
    requires
        forall|i: int| 0 <= i < items.len() ==> !(#[trigger] items[i]).contains('\n'),
    ensures
        pieces(one_per_line(items), '\n') == items.push(seq![]),
{
    let all = items.push(Seq::<char>::empty());
    lemma_lines_are_joined(items);
    assert forall|i: int| 0 <= i < all.len() implies !(#[trigger] all[i]).contains('\n') by {
        if i < items.len() {
            assert(all[i] == items[i]);
        }
    }
    lemma_joined_is_split_back(all, '\n');
}

/// A list is written just where a file is named, to that file, and what is said of it tells the
/// file and how many items it holds.
pub proof fn lemma_lists_are_written(
    path: Option<Seq<char>>,
    items: Seq<Seq<char>>,
    things: Seq<char>,
    failure: Seq<char>,
)
    ensures
        path is None ==> list_output(path, items, things, failure).len() == 0,
        path is Some ==> {
            let outputs = list_output(path, items, things, failure);
            &&& outputs.len() == 1
            &&& outputs[0].path == path->0
            &&& outputs[0].contents == one_per_line(items)
            &&& outputs[0].failure == failure
            &&& path->0.is_suffix_of(outputs[0].message)
            &&& has_part(outputs[0].message, nat_text(items.len()))
        },
{
    if let Some(file) = path {
        let message = list_output(path, items, things, failure)[0].message;
        let n = nat_text(items.len());
        assert(message =~= "Wrote "@ + n + (things + " to "@ + file));
        lemma_part_of_sum("Wrote "@, n, things + " to "@ + file);
        assert(file =~= message.subrange(message.len() - file.len(), message.len() as int));
    }
}

} // verus!
