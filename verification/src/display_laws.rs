//! What is shown of a collection: each test, each error and each warning, and how many there are.

use crate::collection::error::{error_text, warning_line, ErrorView, WarningView};
use crate::collection_integration::{
    counted, error_lines, error_section, file_body, item_section, result_lines,
    summary_parts, warning_section, ErrorsView,
};
use crate::strings::{
    all_digits, digits_value, has_part, joined, lemma_digits_of_number, lemma_joined_is_split_back,
    nat_text, pieces, stands_at,
};
use vstd::prelude::*;

verus! {

/// A text stands in what it is written into.
pub proof fn lemma_part_of_sum(before: Seq<char>, part: Seq<char>, after: Seq<char>)
    ensures
        has_part(before + part + after, part),
{
    let all = before + part + after;
    let at = before.len() as int;
    assert(all.subrange(at, at + part.len()) =~= part);
    assert(stands_at(all, part, at));
}

proof fn lemma_part_of_part(s: Seq<char>, part: Seq<char>, inner: Seq<char>)
    requires
        has_part(s, part),
        has_part(part, inner),
    ensures
        has_part(s, inner),
{
    let i = choose|at: int| stands_at(s, part, at);
    let j = choose|at: int| stands_at(part, inner, at);
    let window = s.subrange(i + j, i + j + inner.len());
    let wanted = part.subrange(j, j + inner.len());
    assert forall|x: int| 0 <= x < inner.len() implies #[trigger] window[x] == wanted[x] by {
        assert(s.subrange(i, i + part.len())[j + x] == part[j + x]);
    }
    assert(window =~= wanted);
    assert(stands_at(s, inner, i + j));
}

// ---------------------------------------------------------------------------------------------
// Errors and warnings
// ---------------------------------------------------------------------------------------------
/// What an error says.
pub open spec fn said_by(error: ErrorView) -> Seq<char> {
    match error {
        ErrorView::ParseError(message) => message,
        ErrorView::ImportError(message) => message,
        ErrorView::IoError(message) => message,
        ErrorView::SkipError(message) => message,
        ErrorView::FileNotFound(path) => path,
    }
}

/// The words on an error end with what it says.
pub proof fn lemma_error_words(error: ErrorView)
    ensures
        said_by(error).is_suffix_of(error_text(error)),
        has_part(error_text(error), said_by(error)),
{
    let all = error_text(error);
    let said = said_by(error);
    let lead = all.take(all.len() - said.len());
    assert(all =~= lead + said + Seq::<char>::empty());
    lemma_part_of_sum(lead, said, seq![]);
    assert(said =~= all.subrange(all.len() - said.len(), all.len() as int));
}

/// The words on a warning end with its message; where its line is known they start with the file,
/// and hold the number of the line.
pub proof fn lemma_warning_words(warning: WarningView)
    ensures
        warning.message.is_suffix_of(warning_line(warning)),
        has_part(warning_line(warning), warning.message),
        warning.line > 0 ==> warning.file_path.is_prefix_of(warning_line(warning)) && has_part(
            warning_line(warning),
            nat_text(warning.line),
        ),
{
    let all = warning_line(warning);
    let said = warning.message;
    let lead = all.take(all.len() - said.len());
    assert(all =~= lead + said + Seq::<char>::empty());
    lemma_part_of_sum(lead, said, seq![]);
    assert(said =~= all.subrange(all.len() - said.len(), all.len() as int));
    if warning.line > 0 {
        let n = warning.file_path.len() as int;
        assert(warning.file_path =~= all.subrange(0, n));
        assert(all =~= (warning.file_path + seq![':']) + nat_text(warning.line) + (": "@ + said));
        lemma_part_of_sum(
            warning.file_path + seq![':'],
            nat_text(warning.line),
            ": "@ + said,
        );
    }
}

proof fn lemma_error_lines(errors: Seq<(Seq<char>, ErrorView)>, k: int)
    requires
        0 <= k < errors.len(),
    ensures
        error_lines(errors).len() == 2 * errors.len(),
        has_part(error_lines(errors)[2 * k], errors[k].0),
        has_part(error_lines(errors)[2 * k + 1], said_by(errors[k].1)),
    decreases errors.len(),
{
    let front = errors.drop_last();
    let before = error_lines(front);
    let all = error_lines(errors);
    lemma_error_line_count(front);
    if k < front.len() {
        lemma_error_lines(front, k);
        assert(all[2 * k] == before[2 * k]);
        assert(all[2 * k + 1] == before[2 * k + 1]);
    } else {
        let (node, error) = errors[k];
        assert(errors.last() == errors[k]);
        let reset = "\x1b[0m"@;
        let (a, b, c) = ("\x1b[1;31m"@, "_ ERROR collecting "@, " _"@);
        assert(all[2 * k] =~= (a + b) + node + (c + reset));
        lemma_part_of_sum(a + b, node, c + reset);
        let words = error_text(error);
        let (d, f) = ("\x1b[31m"@, "E   "@);
        assert(all[2 * k + 1] =~= (d + f) + words + reset);
        lemma_part_of_sum(d + f, words, reset);
        lemma_error_words(error);
        lemma_part_of_part(all[2 * k + 1], words, said_by(error));
    }
}

proof fn lemma_error_line_count(errors: Seq<(Seq<char>, ErrorView)>)
    ensures
        error_lines(errors).len() == 2 * errors.len(),
    decreases errors.len(),
{
    if errors.len() > 0 {
        lemma_error_line_count(errors.drop_last());
    }
}

// ---------------------------------------------------------------------------------------------
// Results
// ---------------------------------------------------------------------------------------------
/// How many lines stand before the summary: two for each error, one above and one below them.
pub open spec fn lines_on_errors(errors: nat) -> int {
    if errors == 0 {
        0
    } else {
        2 * errors as int + 2
    }
}

/// How many lines the summary and the tests take: the tests stand below the summary and an empty
/// line.
pub open spec fn lines_on_items(items: nat) -> int {
    if items == 0 {
        1
    } else {
        items as int + 2
    }
}

proof fn lemma_sections(nodes: Seq<Seq<char>>, errors: ErrorsView)
    ensures
        error_section(errors.errors).len() == lines_on_errors(errors.errors.len()),
        item_section(nodes, errors.errors.len(), errors.warnings.len()).len() == lines_on_items(
            nodes.len(),
        ),
        warning_section(errors.warnings).len() == if errors.warnings.len() == 0 {
            0
        } else {
            errors.warnings.len() + 3
        },
{
    lemma_error_line_count(errors.errors);
}

/// Each test is shown: the `i`-th line below the summary and the empty line is the `i`-th node ID
/// behind two blanks. So the lines without their blanks are the list of node IDs.
pub proof fn lemma_each_test_is_shown(nodes: Seq<Seq<char>>, errors: ErrorsView)
    requires
        nodes.len() > 0,
    ensures
        ({
            let lines = result_lines(nodes, errors);
            let from = lines_on_errors(errors.errors.len()) + 2;
            &&& lines.len() >= from + nodes.len()
            &&& forall|i: int|
                0 <= i < nodes.len() ==> {
                    let line = #[trigger] lines[from + i];
                    line.len() == nodes[i].len() + 2 && line[0] == ' ' && line[1] == ' '
                        && line.skip(2) == nodes[i]
                }
            &&& Seq::new(nodes.len(), |i: int| lines[from + i].skip(2)) == nodes
        }),
{
    let lines = result_lines(nodes, errors);
    let from = lines_on_errors(errors.errors.len()) + 2;
    lemma_sections(nodes, errors);
    reveal_strlit("  ");
    assert("  "@ =~= seq![' ', ' ']);
    assert forall|i: int| 0 <= i < nodes.len() implies {
        let line = #[trigger] lines[from + i];
        line.len() == nodes[i].len() + 2 && line[0] == ' ' && line[1] == ' ' && line.skip(2)
            == nodes[i]
    } by {
        let line = lines[from + i];
        assert(line == "  "@ + nodes[i]);
        assert(line.skip(2) =~= nodes[i]);
    }
    let stripped = Seq::new(nodes.len(), |i: int| lines[from + i].skip(2));
    assert forall|i: int| 0 <= i < nodes.len() implies #[trigger] stripped[i] == nodes[i] by {
        assert(lines[from + i].skip(2) == nodes[i]);
    }
    assert(stripped =~= nodes);
}

/// Each error is shown, in order: the node that could not be collected, and below it what the error
/// says.
pub proof fn lemma_each_error_is_shown(nodes: Seq<Seq<char>>, errors: ErrorsView, k: int)
    requires
        0 <= k < errors.errors.len(),
    ensures
        ({
            let lines = result_lines(nodes, errors);
            &&& lines.len() > 2 * k + 2
            &&& has_part(lines[2 * k + 1], errors.errors[k].0)
            &&& has_part(lines[2 * k + 2], said_by(errors.errors[k].1))
        }),
{
    lemma_sections(nodes, errors);
    lemma_error_line_count(errors.errors);
    lemma_error_lines(errors.errors, k);
    let lines = result_lines(nodes, errors);
    let all = error_lines(errors.errors);
    assert(lines[2 * k + 1] == all[2 * k]);
    assert(lines[2 * k + 2] == all[2 * k + 1]);
}

/// Each warning is shown, in order, below the tests.
pub proof fn lemma_each_warning_is_shown(nodes: Seq<Seq<char>>, errors: ErrorsView, k: int)
    requires
        0 <= k < errors.warnings.len(),
    ensures
        ({
            let lines = result_lines(nodes, errors);
            let from = lines_on_errors(errors.errors.len()) + lines_on_items(nodes.len()) + 2;
            let warning = errors.warnings[k];
            &&& lines.len() == from + errors.warnings.len() + 1
            &&& has_part(lines[from + k], warning.message)
            &&& warning.line > 0 ==> has_part(lines[from + k], warning.file_path) && has_part(
                lines[from + k],
                nat_text(warning.line),
            )
        }),
{
    let lines = result_lines(nodes, errors);
    let from = lines_on_errors(errors.errors.len()) + lines_on_items(nodes.len()) + 2;
    let warning = errors.warnings[k];
    lemma_sections(nodes, errors);
    lemma_warning_words(warning);
    let words = warning_line(warning);
    let line = lines[from + k];
    assert(line == "\x1b[33m"@ + words + "\x1b[0m"@);
    lemma_part_of_sum("\x1b[33m"@, words, "\x1b[0m"@);
    lemma_part_of_part(line, words, warning.message);
    if warning.line > 0 {
        lemma_part_of_part(line, words, nat_text(warning.line));
        let n = warning.file_path.len() as int;
        assert(words.subrange(0, n) =~= warning.file_path);
        assert(stands_at(words, warning.file_path, 0));
        lemma_part_of_part(line, words, warning.file_path);
    }
}

/// The text tells a number of things: the number, and the thing in the singular or the plural.
pub open spec fn tells(
    text: Seq<char>,
    lead: Seq<char>,
    count: nat,
    thing: Seq<char>,
) -> bool {
    exists|digits: Seq<char>|
        {
            &&& all_digits(digits)
            &&& digits_value(digits) == count
            &&& count == 1 ==> text == #[trigger] (lead + digits + thing)
            &&& count != 1 ==> text == (lead + digits + thing).push('s')
        }
}

proof fn lemma_tells(lead: Seq<char>, count: nat, thing: Seq<char>)
    ensures
        tells(
            counted(lead, count, thing),
            lead,
            count,
            thing,
        ),
{
    let text = counted(lead, count, thing);
    let digits = nat_text(count);
    lemma_digits_of_number(count);
    let plain = lead + digits + thing;
    if count == 1 {
        assert(text =~= plain);
    } else {
        assert(text =~= plain.push('s'));
    }
}

/// The summary tells how many tests, errors and warnings there are, leaving out what there is none
/// of.
pub proof fn lemma_summary_counts(nodes: Seq<Seq<char>>, errors: ErrorsView) -> (parts: Seq<
    Seq<char>,
>)
    requires
        nodes.len() > 0 || errors.errors.len() > 0,
    ensures
        ({
            let lines = result_lines(nodes, errors);
            let (n, e, w) = (nodes.len(), errors.errors.len(), errors.warnings.len());
            let items = if n > 0 {
                1int
            } else {
                0
            };
            let failed = if e > 0 {
                1int
            } else {
                0
            };
            let warned = if w > 0 {
                1int
            } else {
                0
            };
            &&& lines[lines_on_errors(e)] == joined(parts, " / "@)
            &&& parts.len() == items + failed + warned
            &&& n > 0 ==> tells(parts[0], "collected "@, n, " item"@)
            &&& e > 0 ==> tells(parts[items], seq![], e, " error"@)
            &&& w > 0 ==> tells(parts[items + failed], seq![], w, " warning"@)
        }),
{
    let (n, e, w) = (nodes.len(), errors.errors.len(), errors.warnings.len());
    let parts = summary_parts(n, e, w);
    lemma_sections(nodes, errors);
    lemma_tells("collected "@, n, " item"@);
    lemma_tells(seq![], e, " error"@);
    lemma_tells(seq![], w, " warning"@);
    parts
}

/// A file of records holds one record on each line: the lines of the file, up to the end of the
/// last, are the records.
pub proof fn lemma_file_holds_the_records(lines: Seq<Seq<char>>)
    requires
        lines.len() > 0,
        forall|i: int|
            0 <= i < lines.len() ==> !(#[trigger] lines[i]).contains('\n') && lines[i].len() > 0,
    ensures
        file_body(lines).len() > 0,
        file_body(lines).last() == '\n',
        pieces(file_body(lines).drop_last(), '\n') == lines,
        file_body(seq![]).len() == 0,
{
    reveal_strlit("\n");
    assert("\n"@ =~= seq!['\n']);
    lemma_joined_is_split_back(lines, '\n');
    let body = joined(lines, "\n"@);
    assert(body.len() > 0) by {
        if lines.len() == 1 {
            assert(body == lines[0]);
        } else {
            assert(body.len() >= "\n"@.len());
        }
    }
    assert(body.push('\n').drop_last() =~= body);
}

} // verus!
