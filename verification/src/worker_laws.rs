//! What the native runner tells its workers, and what it makes of their results.

use crate::display_laws::lemma_part_of_sum;
use crate::native_runner::{
    aggregate, all_results, counted, crash_text, indented, is_expected, is_passed_over,
    is_python_name, lemma_aggregate_push, lines_of, numbered, result_views, results_lines, run_text,
    section_lines, status_line, summary_text, without_return, worker_line, AggregateView,
    ResultView, TestResult,
};
use crate::runner::one_per_line;
use crate::run_laws::lemma_file_holds_the_items;
use crate::strings::{
    has_part, int_text, is_space, joined, nat_text, pieces, stands_at, trimmed, trimmed_back,
    trimmed_front,
};
use vstd::prelude::*;

verus! {

// ---------------------------------------------------------------------------------------------
// Command lines of workers
// ---------------------------------------------------------------------------------------------
/// A worker is told the root and the file for its results, the patterns for classes and functions
/// where there are any, and behind `--` all of its files, in order.
pub proof fn lemma_worker_is_told_all(
    root: Seq<char>,
    output: Seq<char>,
    files: Seq<Seq<char>>,
    classes: Seq<Seq<char>>,
    functions: Seq<Seq<char>>,
)
    ensures
        ({
            let line = worker_line(root, output, files, classes, functions);
            let c: int = if classes.len() == 0 {
                0
            } else {
                classes.len() as int + 1
            };
            let f: int = if functions.len() == 0 {
                0
            } else {
                functions.len() as int + 1
            };
            &&& line.len() == 6 + c + f + 1 + files.len()
            &&& line[0] == "-m"@ && line[1] == "rtest.worker"@
            &&& line[2] == "--root"@ && line[3] == root
            &&& line[4] == "--out"@ && line[5] == output
            &&& classes.len() > 0 ==> line[6] == "--python-classes"@ && line.subrange(7, 6 + c)
                == classes
            &&& functions.len() > 0 ==> line[6 + c] == "--python-functions"@ && line.subrange(
                7 + c,
                6 + c + f,
            ) == functions
            &&& line[6 + c + f] == "--"@
            &&& line.skip(7 + c + f) == files
        }),
{
    let line = worker_line(root, output, files, classes, functions);
    let c: int = if classes.len() == 0 {
        0
    } else {
        classes.len() as int + 1
    };
    let f: int = if functions.len() == 0 {
        0
    } else {
        functions.len() as int + 1
    };
    if classes.len() > 0 {
        assert(line.subrange(7, 6 + c) =~= classes);
    }
    if functions.len() > 0 {
        assert(line.subrange(7 + c, 6 + c + f) =~= functions);
    }
    assert(line.skip(7 + c + f) =~= files);
}

/// Only the exit codes 0 and 1 are expected of a worker. What is said of another end holds the
/// code.
pub proof fn lemma_crashes(worker: nat, code: i32)
    ensures
        is_expected(Some(code)) <==> code == 0 || code == 1,
        !is_expected(None),
        has_part(crash_text(worker, Some(code)), int_text(code as int)),
        has_part(crash_text(worker, Some(code)), nat_text(worker)),
{
    let all = crash_text(worker, Some(code));
    let (a, b, c) = ("Worker "@, " crashed with exit code "@, " (expected 0 or 1)"@);
    let (w, n) = (nat_text(worker), int_text(code as int));
    lemma_part_of_sum(a + w + b, n, c);
    assert(all =~= a + w + (b + n + c));
    lemma_part_of_sum(a, w, b + n + c);
}

// ---------------------------------------------------------------------------------------------
// Results
// ---------------------------------------------------------------------------------------------
/// Each result counts once, under its outcome; one with an unknown outcome counts as an error. The
/// failed and the erroneous results are kept, in order.
pub proof fn lemma_each_result_counts_once(results: Seq<ResultView>, r: ResultView)
    ensures
        ({
            let before = aggregate(results);
            let after = aggregate(results.push(r));
            let passed = r.outcome == "passed"@;
            let failed = r.outcome == "failed"@;
            let skipped = r.outcome == "skipped"@;
            let error = r.outcome == "error"@;
            &&& after.total == before.total + 1
            &&& passed ==> after.passed == before.passed + 1
            &&& !passed ==> after.passed == before.passed
            &&& failed ==> after.failed == before.failed + 1 && after.failures
                == before.failures.push(r)
            &&& !failed ==> after.failed == before.failed && after.failures == before.failures
            &&& skipped ==> after.skipped == before.skipped + 1
            &&& !skipped ==> after.skipped == before.skipped
            &&& passed || failed || skipped ==> after.error == before.error
            &&& !passed && !failed && !skipped ==> after.error == before.error + 1
            &&& error ==> after.errors == before.errors.push(r)
            &&& !error ==> after.errors == before.errors
            &&& after.duration_bits == before.duration_bits.push(r.duration_bits)
        }),
{
    lemma_aggregate_push(results, r);
    reveal_strlit("passed");
    reveal_strlit("failed");
    reveal_strlit("skipped");
    reveal_strlit("error");
    assert("passed"@.len() == 6 && "failed"@.len() == 6 && "skipped"@.len() == 7 && "error"@.len()
        == 5);
    assert("passed"@[0] == 'p' && "failed"@[0] == 'f');
    assert(aggregate(results.push(r)).duration_bits =~= aggregate(results).duration_bits.push(
        r.duration_bits,
    ));
}

/// Without results nothing is counted.
pub proof fn lemma_no_results()
    ensures
        ({
            let none = aggregate(seq![]);
            &&& none.passed == 0 && none.failed == 0 && none.error == 0 && none.skipped == 0
            &&& none.total == 0 && none.failures.len() == 0 && none.errors.len() == 0
        }),
{
    reveal(Seq::filter);
}

/// The results of all workers are those of each, one after another.
pub proof fn lemma_results_of_all_workers(lists: Seq<Vec<TestResult>>, w: int, k: int)
    requires
        0 <= w < lists.len(),
        0 <= k < lists[w]@.len(),
    ensures
        all_results(lists).contains(lists[w]@[k]@),
        all_results(lists) == all_results(lists.drop_last()) + result_views(lists.last()@),
    decreases lists.len(),
{
    let all = all_results(lists);
    let front = all_results(lists.drop_last());
    let back = result_views(lists.last()@);
    if w < lists.len() - 1 {
        lemma_results_of_all_workers(lists.drop_last(), w, k);
        let x = choose|x: int| 0 <= x < front.len() && front[x] == lists[w]@[k]@;
        assert(all[x] == front[x]);
    } else {
        assert(back[k] == lists[w]@[k]@);
        assert(all[front.len() + k] == back[k]);
    }
}

// ---------------------------------------------------------------------------------------------
// Results files
// ---------------------------------------------------------------------------------------------
proof fn lemma_not_blank(s: Seq<char>, k: int)
    requires
        0 <= k < s.len(),
        !is_space(s[k]),
    ensures
        trimmed_front(s).len() > 0,
        trimmed_back(s).len() > 0,
        exists|m: int| 0 <= m < trimmed_front(s).len() && !is_space(#[trigger] trimmed_front(s)[m]),
    decreases s.len(),
{
    if is_space(s[0]) {
        let rest = s.drop_first();
        assert(rest[k - 1] == s[k]);
        lemma_not_blank(rest, k - 1);
    } else {
        assert(!is_space(trimmed_front(s)[0]));
    }
    if is_space(s.last()) {
        let rest = s.drop_last();
        assert(rest[k] == s[k]);
        lemma_not_blank(rest, k);
    }
}

/// The line holds a printable ASCII character.
pub open spec fn is_written(line: Seq<char>) -> bool {
    exists|k: int| 0 <= k < line.len() && '!' <= #[trigger] line[k] <= '~'
}

proof fn lemma_numbered(lines: Seq<Seq<char>>)
    requires
        forall|i: int| 0 <= i < lines.len() ==> is_written(#[trigger] lines[i]),
    ensures
        numbered(lines) == Seq::new(lines.len(), |i: int| ((i + 1) as nat, lines[i])),
    decreases lines.len(),
{
    let wanted = Seq::new(lines.len(), |i: int| ((i + 1) as nat, lines[i]));
    if lines.len() > 0 {
        let front = lines.drop_last();
        let last = lines.last();
        assert(last == lines[lines.len() - 1]);
        assert forall|i: int| 0 <= i < front.len() implies is_written(#[trigger] front[i]) by {
            assert(front[i] == lines[i]);
        }
        lemma_numbered(front);
        let k = choose|k: int| 0 <= k < last.len() && '!' <= #[trigger] last[k] <= '~';
        lemma_not_blank(last, k);
        let inner = trimmed_front(last);
        let m = choose|m: int| 0 <= m < inner.len() && !is_space(#[trigger] inner[m]);
        lemma_not_blank(inner, m);
        assert(trimmed(last).len() > 0);
        assert(numbered(lines) =~= wanted);
    } else {
        assert(numbered(lines) =~= wanted);
    }
}

/// Of a file with one record on each line, each record is read, in order, with the number of its
/// line.
pub proof fn lemma_each_record_is_read(lines: Seq<Seq<char>>, k: int)
    requires
        0 <= k < lines.len(),
        forall|i: int|
            #![trigger lines[i]]
            0 <= i < lines.len() ==> {
                &&& is_written(lines[i])
                &&& !lines[i].contains('\n')
                &&& lines[i].last() != '\r'
            },
    ensures
        lines_of(one_per_line(lines)) == lines,
        numbered(lines_of(one_per_line(lines))).len() == lines.len(),
        numbered(lines_of(one_per_line(lines)))[k] == ((k + 1) as nat, lines[k]),
{
    let content = one_per_line(lines);
    assert forall|i: int| 0 <= i < lines.len() implies !(#[trigger] lines[i]).contains('\n') by {}
    lemma_file_holds_the_items(lines);
    let parts = pieces(content, '\n');
    assert(parts.last() == Seq::<char>::empty());
    let ended = Seq::new((parts.len() - 1) as nat, |i: int| without_return(parts[i]));
    assert forall|i: int| 0 <= i < lines.len() implies #[trigger] ended[i] == lines[i] by {
        assert(parts[i] == lines[i]);
    }
    assert(ended =~= lines);
    lemma_numbered(lines);
}

// ---------------------------------------------------------------------------------------------
// Summary
// ---------------------------------------------------------------------------------------------
/// The line shows the node ID behind two blanks.
pub open spec fn shows_node(line: Seq<char>, nodeid: Seq<char>) -> bool {
    line.len() == nodeid.len() + 2 && line[0] == ' ' && line[1] == ' ' && line.skip(2) == nodeid
}

proof fn lemma_shown_in_section(results: Seq<ResultView>, k: int) -> (at: int)
    requires
        0 <= k < results.len(),
    ensures
        0 <= at < results_lines(results).len(),
        shows_node(results_lines(results)[at], results[k].nodeid),
        results[k].error is Some && results[k].error->0.traceback is Some ==> {
            let lines = lines_of(results[k].error->0.traceback->0);
            &&& at + lines.len() < results_lines(results).len()
            &&& forall|j: int|
                0 <= j < lines.len() ==> lines[j].is_suffix_of(
                    #[trigger] results_lines(results)[at + 1 + j],
                )
        },
    decreases results.len(),
{
    let front = results_lines(results.drop_last());
    let all = results_lines(results);
    if k < results.len() - 1 {
        let at = lemma_shown_in_section(results.drop_last(), k);
        assert(all[at] == front[at]);
        if results[k].error is Some && results[k].error->0.traceback is Some {
            let lines = lines_of(results[k].error->0.traceback->0);
            assert forall|j: int| 0 <= j < lines.len() implies lines[j].is_suffix_of(
                #[trigger] all[at + 1 + j],
            ) by {
                assert(all[at + 1 + j] == front[at + 1 + j]);
            }
        }
        at
    } else {
        let at = front.len() as int;
        let r = results.last();
        assert(r == results[k]);
        reveal_strlit("  ");
        assert("  "@ =~= seq![' ', ' ']);
        assert(all[at] == "  "@ + r.nodeid);
        assert(all[at].skip(2) =~= r.nodeid);
        if r.error is Some && r.error->0.traceback is Some {
            let lines = lines_of(r.error->0.traceback->0);
            assert forall|j: int| 0 <= j < lines.len() implies lines[j].is_suffix_of(
                #[trigger] all[at + 1 + j],
            ) by {
                let line = all[at + 1 + j];
                assert(line == indented(lines)[j]);
                assert(lines[j] =~= line.subrange(
                    line.len() - lines[j].len(),
                    line.len() as int,
                ));
            }
        }
        at
    }
}

/// Each failed and each erroneous test is shown in the summary, and below it each line of its
/// traceback.
pub proof fn lemma_failures_are_shown(results: AggregateView, seconds: Seq<char>, k: int) -> (at: (
    int,
    int,
))
    ensures
        0 <= k < results.failures.len() ==> {
            let lines = summary_text(results, seconds);
            let r = results.failures[k];
            &&& 0 <= at.0 < lines.len()
            &&& shows_node(lines[at.0], r.nodeid)
            &&& r.error is Some && r.error->0.traceback is Some ==> forall|j: int|
                0 <= j < lines_of(r.error->0.traceback->0).len() ==> lines_of(
                    r.error->0.traceback->0,
                )[j].is_suffix_of(#[trigger] lines[at.0 + 1 + j])
        },
        0 <= k < results.errors.len() ==> {
            let lines = summary_text(results, seconds);
            &&& 0 <= at.1 < lines.len()
            &&& shows_node(lines[at.1], results.errors[k].nodeid)
        },
{
    let lines = summary_text(results, seconds);
    let failures = section_lines("FAILURES"@, results.failures);
    let mut first: int = 0;
    let mut second: int = 0;
    if 0 <= k < results.failures.len() {
        let x = lemma_shown_in_section(results.failures, k);
        first = 4 + x;
        assert(lines[first] == results_lines(results.failures)[x]);
        let r = results.failures[k];
        if r.error is Some && r.error->0.traceback is Some {
            let trace = lines_of(r.error->0.traceback->0);
            assert forall|j: int| 0 <= j < trace.len() implies trace[j].is_suffix_of(
                #[trigger] lines[first + 1 + j],
            ) by {
                assert(lines[first + 1 + j] == results_lines(results.failures)[x + 1 + j]);
            }
        }
    }
    if 0 <= k < results.errors.len() {
        let x = lemma_shown_in_section(results.errors, k);
        second = 4 + failures.len() + x;
        assert(lines[second] == results_lines(results.errors)[x]);
    }
    (first, second)
}

/// The last line of the summary says `FAILED` just where a test failed or was erroneous, and else
/// `PASSED`. It holds the number of tests of each outcome that there is.
pub proof fn lemma_status_line(results: AggregateView, seconds: Seq<char>)
    ensures
        ({
            let line = status_line(results, seconds);
            let bad = results.failed > 0 || results.error > 0;
            &&& summary_text(results, seconds).last() == line
            &&& bad ==> stands_at(line, "FAILED"@, 11)
            &&& !bad ==> stands_at(line, "PASSED"@, 11)
            &&& results.passed > 0 ==> has_part(line, nat_text(results.passed) + " passed"@)
            &&& results.failed > 0 ==> has_part(line, nat_text(results.failed) + " failed"@)
            &&& results.error > 0 ==> has_part(line, nat_text(results.error) + " error"@)
            &&& results.skipped > 0 ==> has_part(line, nat_text(results.skipped) + " skipped"@)
        }),
{
    let line = status_line(results, seconds);
    let bad = results.failed > 0 || results.error > 0;
    let status = if bad {
        "FAILED"@
    } else {
        "PASSED"@
    };
    let p = counted(results.passed, " passed"@);
    let f = counted(results.failed, " failed"@);
    let e = counted(results.error, " error"@);
    let s = counted(results.skipped, " skipped"@);
    let parts = p + f + e + s;
    let body = joined(parts, ", "@);
    reveal_strlit("========== ");
    reveal_strlit("FAILED");
    reveal_strlit("PASSED");
    let lead = "========== "@;
    assert(lead.len() == 11 && status.len() == 6);
    assert(line.subrange(11, 17) =~= status);
    let before = lead + status + " "@;
    let after = " in "@ + seconds + "s =========="@;
    assert(line =~= before + body + after);
    if results.passed > 0 {
        assert(parts[0] == p[0]);
        lemma_part_is_joined(parts, 0, before, after);
    }
    if results.failed > 0 {
        assert(parts[p.len() as int] == f[0]);
        lemma_part_is_joined(parts, p.len() as int, before, after);
    }
    if results.error > 0 {
        assert(parts[(p.len() + f.len()) as int] == e[0]);
        lemma_part_is_joined(parts, (p.len() + f.len()) as int, before, after);
    }
    if results.skipped > 0 {
        assert(parts[(p.len() + f.len() + e.len()) as int] == s[0]);
        lemma_part_is_joined(parts, (p.len() + f.len() + e.len()) as int, before, after);
    }
}

proof fn lemma_part_is_joined(
    parts: Seq<Seq<char>>,
    k: int,
    before: Seq<char>,
    after: Seq<char>,
)
    requires
        0 <= k < parts.len(),
    ensures
        has_part(before + joined(parts, ", "@) + after, parts[k]),
    decreases parts.len(),
{
    let body = joined(parts, ", "@);
    if parts.len() == 1 {
        lemma_part_of_sum(before, parts[0], after);
    } else {
        let front = parts.drop_last();
        let start = joined(front, ", "@);
        if k < front.len() {
            lemma_part_is_joined(front, k, before, ", "@ + parts.last() + after);
            assert(before + body + after =~= before + start + (", "@ + parts.last() + after));
        } else {
            assert(before + body + after =~= (before + start + ", "@) + parts[k] + after);
            lemma_part_of_sum(before + start + ", "@, parts[k], after);
        }
    }
}

// ---------------------------------------------------------------------------------------------
// Files
// ---------------------------------------------------------------------------------------------
/// Hidden names and cache directories are passed over, and nothing else. Names of Python files end
/// with `.py` behind some other character.
pub proof fn lemma_names_of_files(name: Seq<char>)
    ensures
        is_passed_over(seq!['.'] + name),
        is_passed_over("__pycache__"@),
        name.len() > 0 && name[0] != '.' && name != "__pycache__"@ ==> !is_passed_over(name),
        is_python_name(name + seq!['.', 'p', 'y']) == (name.len() > 0),
        is_python_name(name) ==> name.last() == 'y',
{
    let file = name + seq!['.', 'p', 'y'];
    reveal_strlit(".py");
    assert(".py"@ =~= seq!['.', 'p', 'y']);
    assert(".py"@ =~= file.subrange(file.len() - 3, file.len() as int));
    if is_python_name(name) {
        assert(name.subrange(name.len() - 3, name.len() as int)[2] == name.last());
    }
}

/// What is shown at the start of a run holds the number of files and of workers.
pub proof fn lemma_start_of_a_run(files: nat, workers: nat)
    ensures
        stands_at(run_text(files, workers), nat_text(files), 8),
        has_part(run_text(files, workers), nat_text(workers)),
{
    let all = run_text(files, workers);
    let (a, b, c) = ("Running "@, " test file(s) with "@, " worker(s)"@);
    let (f, w) = (nat_text(files), nat_text(workers));
    reveal_strlit("Running ");
    assert(a.len() == 8);
    assert(all.subrange(8, 8int + f.len()) =~= f);
    lemma_part_of_sum(a + f + b, w, c);
}

} // verus!
