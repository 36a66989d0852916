//! Native test runner that executes tests via Python workers.
//!
//! The workers are separate processes. This module decides what they are given, what to make of
//! their exit, and what is shown of their results.

use crate::collection::utils::{
    any_glob_accepts, glob_match_any, may_match_any, no_backslash, no_backslashes,
};
use crate::ordered::{insert_path, lemma_sorted_paths_are_unique, paths_sorted};
use crate::strings::{
    chars_of, copy, copy_option, ends_with, i64_string, int_text, join, joined, nat_text, pieces,
    same, split, starts_with, string_of, text_lists, text_of, texts, trim, trimmed, usize_string,
};
use vstd::arithmetic::div_mod::lemma_fundamental_div_mod_converse;
use vstd::prelude::*;

verus! {

// ---------------------------------------------------------------------------------------------
// Configuration
// ---------------------------------------------------------------------------------------------
/// What the native runner is given.
#[derive(Debug)]
pub struct NativeRunnerConfig {
    pub python_executable: String,
    pub root_path: String,
    pub num_workers: usize,
    pub python_files: Vec<String>,
    pub python_classes: Vec<String>,
    pub python_functions: Vec<String>,
}

fn push_text(list: &mut Vec<String>, s: &str)
    ensures
        texts(final(list)@) == texts(old(list)@).push(s@),
{
    let ghost before = list@;
    list.push(copy(s));
    assert(texts(list@) =~= texts(before).push(s@));
}

/// Default pytest python_files patterns
pub fn default_python_files() -> (r: Vec<String>)
    ensures
        texts(r@) == seq!["test_*.py"@, "*_test.py"@],
{
    let mut r: Vec<String> = Vec::new();
    push_text(&mut r, "test_*.py");
    push_text(&mut r, "*_test.py");
    assert(texts(r@) =~= seq!["test_*.py"@, "*_test.py"@]);
    r
}

/// Default pytest python_classes patterns
pub fn default_python_classes() -> (r: Vec<String>)
    ensures
        texts(r@) == seq!["Test*"@],
{
    let mut r: Vec<String> = Vec::new();
    push_text(&mut r, "Test*");
    assert(texts(r@) =~= seq!["Test*"@]);
    r
}

/// Default pytest python_functions patterns
pub fn default_python_functions() -> (r: Vec<String>)
    ensures
        texts(r@) == seq!["test*"@],
{
    let mut r: Vec<String> = Vec::new();
    push_text(&mut r, "test*");
    assert(texts(r@) =~= seq!["test*"@]);
    r
}

/// The configured patterns, or the defaults where none are configured.
pub fn patterns_or(configured: Vec<String>, defaults: Vec<String>) -> (r: Vec<String>)
    ensures
        r == if configured@.len() == 0 {
            defaults
        } else {
            configured
        },
{
    if configured.len() == 0 {
        defaults
    } else {
        configured
    }
}

// ---------------------------------------------------------------------------------------------
// Shards
// ---------------------------------------------------------------------------------------------
/// The items at the positions `w`, `w + k`, `w + 2k`, and so on.
pub open spec fn shard_of<T>(items: Seq<T>, w: int, k: int) -> Seq<T>
    decreases items.len(),
{
    if items.len() == 0 {
        seq![]
    } else {
        let before = shard_of(items.drop_last(), w, k);
        if (items.len() - 1) % k == w {
            before.push(items.last())
        } else {
            before
        }
    }
}

/// The number of shards: one for each worker, but none without files.
pub open spec fn shard_count(files: nat, workers: nat) -> nat {
    if workers < files {
        workers
    } else {
        files
    }
}

/// Deals the files out to the workers in turn. There are no empty shards.
pub fn shard_files<T>(files: Vec<T>, num_workers: usize) -> (r: Vec<Vec<T>>)
    ensures
        r@.len() == shard_count(files@.len(), num_workers as nat),
        forall|w: int|
            0 <= w < r@.len() ==> (#[trigger] r@[w])@ == shard_of(files@, w, r@.len() as int),
{
    let mut shards: Vec<Vec<T>> = Vec::new();
    if num_workers == 0 || files.len() == 0 {
        return shards;
    }
    let k: usize = if num_workers < files.len() {
        num_workers
    } else {
        files.len()
    };
    let ghost all = files@;
    let mut w: usize = 0;
    while w < k
        invariant
            w <= k,
            shards@.len() == w,
            forall|j: int| 0 <= j < w ==> (#[trigger] shards@[j])@.len() == 0,
        decreases k - w,
    {
        shards.push(Vec::new());
        w = w + 1;
    }
    assert(all.take(0) =~= Seq::<T>::empty());
    assert forall|j: int| 0 <= j < k implies (#[trigger] shards@[j])@ == shard_of(
        all.take(0),
        j,
        k as int,
    ) by {
        assert(shards@[j]@ =~= Seq::<T>::empty());
    }
    let mut turn: usize = 0;
    for file in it: files.into_iter()
        invariant
            0 < k,
            turn < k,
            it.seq() == all,
            turn == it.index() as int % k as int,
            shards@.len() == k,
            forall|j: int|
                0 <= j < k ==> (#[trigger] shards@[j])@ == shard_of(
                    all.take(it.index() as int),
                    j,
                    k as int,
                ),
    {
        let ghost before = shards@;
        let ghost i = it.index() as int;
        shards[turn].push(file);
        proof {
            assert(all.take(i + 1).drop_last() =~= all.take(i));
            assert(all.take(i + 1).last() == file);
            assert forall|j: int| 0 <= j < k implies (#[trigger] shards@[j])@ == shard_of(
                all.take(i + 1),
                j,
                k as int,
            ) by {
                assert(before[j]@ == shard_of(all.take(i), j, k as int));
            }
            lemma_next_turn(i, k as int);
        }
        turn = if turn + 1 == k {
            0
        } else {
            turn + 1
        };
    }
    assert(all.take(all.len() as int) =~= all);
    shards
}

proof fn lemma_next_turn(i: int, k: int)
    requires
        0 <= i,
        0 < k,
    ensures
        (i + 1) % k == if i % k + 1 == k {
            0
        } else {
            i % k + 1
        },
{
    let q = i / k;
    let r = i % k;
    vstd::arithmetic::div_mod::lemma_fundamental_div_mod(i, k);
    if r + 1 == k {
        assert(i + 1 == (q + 1) * k + 0) by (nonlinear_arith)
            requires
                i == k * q + r,
                r + 1 == k,
        ;
        vstd::arithmetic::div_mod::lemma_fundamental_div_mod_converse(i + 1, k, q + 1, 0);
    } else {
        assert(i + 1 == q * k + (r + 1)) by (nonlinear_arith)
            requires
                i == k * q + r,
        ;
        vstd::arithmetic::div_mod::lemma_fundamental_div_mod_converse(i + 1, k, q, r + 1);
    }
}

/// How many of `n` items the shard `w` of `k` holds.
pub open spec fn shard_size(n: int, w: int, k: int) -> int {
    (n + k - 1 - w) / k
}

/// The place of the item that stands at `j` in the shard `w` of `k`.
pub open spec fn dealt_from(w: int, j: int, k: int) -> int {
    w + j * k
}

proof fn lemma_shard_size_step(n: int, w: int, k: int)
    requires
        0 <= w < k,
        0 < n,
    ensures
        shard_size(n, w, k) == shard_size(n - 1, w, k) + if (n - 1) % k == w {
            1int
        } else {
            0int
        },
        (n - 1) % k == w ==> shard_size(n - 1, w, k) == (n - 1) / k && n - 1 == w + ((n - 1) / k)
            * k,
{
    let q = (n - 1) / k;
    let r = (n - 1) % k;
    vstd::arithmetic::div_mod::lemma_fundamental_div_mod(n - 1, k);
    assert(k * q == q * k) by (nonlinear_arith);
    assert((q + 1) * k == q * k + k) by (nonlinear_arith);
    // n + k - 1 - w = q k + (r + k - w), and one less for n - 1.
    if r >= w {
        lemma_fundamental_div_mod_converse(n + k - 1 - w, k, q + 1, r - w);
    } else {
        lemma_fundamental_div_mod_converse(n + k - 1 - w, k, q, r + k - w);
    }
    if r - 1 >= w {
        lemma_fundamental_div_mod_converse(n + k - 2 - w, k, q + 1, r - 1 - w);
    } else {
        lemma_fundamental_div_mod_converse(n + k - 2 - w, k, q, r - 1 + k - w);
    }
}

/// The shard `w` of `k` holds the items at the places `w`, `w + k`, `w + 2k`, and so on.
pub proof fn lemma_shard_items<T>(items: Seq<T>, w: int, k: int)
    requires
        0 <= w < k,
    ensures
        shard_of(items, w, k).len() == shard_size(items.len() as int, w, k),
        forall|j: int|
            0 <= j < shard_of(items, w, k).len() ==> 0 <= #[trigger] dealt_from(w, j, k)
                < items.len(),
        forall|j: int|
            0 <= j < shard_of(items, w, k).len() ==> #[trigger] shard_of(items, w, k)[j]
                == items[dealt_from(w, j, k)],
    decreases items.len(),
{
    let shard = shard_of(items, w, k);
    let n = items.len() as int;
    if n == 0 {
        lemma_fundamental_div_mod_converse(k - 1 - w, k, 0, k - 1 - w);
    } else {
        let front = items.drop_last();
        let before = shard_of(front, w, k);
        lemma_shard_items(front, w, k);
        lemma_shard_size_step(n, w, k);
        assert forall|j: int| 0 <= j < shard.len() implies 0 <= #[trigger] dealt_from(w, j, k)
            < items.len() && shard[j] == items[dealt_from(w, j, k)] by {
            if j < before.len() {
                assert(shard[j] == before[j]);
                assert(before[j] == front[dealt_from(w, j, k)]);
            } else {
                assert(j == (n - 1) / k);
                assert(dealt_from(w, j, k) == n - 1);
            }
        }

    }
}

/// Every item stands in exactly one place of one shard.
pub proof fn lemma_shards_partition<T>(items: Seq<T>, k: int, i: int, w: int, j: int)
    requires
        0 < k,
        0 <= i < items.len(),
        0 <= w < k,
        0 <= j,
    ensures
        0 <= i % k < k,
        0 <= i / k < shard_of(items, i % k, k).len(),
        shard_of(items, i % k, k)[i / k] == items[i],
        dealt_from(w, j, k) == i <==> w == i % k && j == i / k,
{
    vstd::arithmetic::div_mod::lemma_fundamental_div_mod(i, k);
    assert(k * (i / k) == (i / k) * k) by (nonlinear_arith);
    lemma_shard_items(items, i % k, k);
    let n = items.len() as int;
    let rest = n + k - 1 - i % k;
    assert(shard_size(n, i % k, k) > i / k) by {
        vstd::arithmetic::div_mod::lemma_fundamental_div_mod(rest, k);
        assert(rest / k > i / k) by (nonlinear_arith)
            requires
                rest == k * (rest / k) + rest % k,
                0 <= rest % k < k,
                rest >= k * (i / k) + k,
                k > 0,
        ;
    }
    assert(0 <= i / k) by (nonlinear_arith)
        requires
            i == k * (i / k) + i % k,
            i >= 0,
            i % k < k,
            k > 0,
    ;
    if w + j * k == i {
        lemma_fundamental_div_mod_converse(i, k, j, w);
    }
}

/// No worker is given more than one file more than another, and none is without files.
pub proof fn lemma_shards_are_even<T>(items: Seq<T>, workers: nat, v: int, w: int)
    requires
        0 <= v < shard_count(items.len(), workers),
        0 <= w < shard_count(items.len(), workers),
    ensures
        shard_of(items, v, shard_count(items.len(), workers) as int).len() > 0,
        shard_of(items, v, shard_count(items.len(), workers) as int).len() <= shard_of(
            items,
            w,
            shard_count(items.len(), workers) as int,
        ).len() + 1,
{
    let k = shard_count(items.len(), workers) as int;
    let n = items.len() as int;
    lemma_shard_items(items, v, k);
    lemma_shard_items(items, w, k);
    let a = n + k - 1 - v;
    let b = n + k - 1 - w;
    vstd::arithmetic::div_mod::lemma_fundamental_div_mod(a, k);
    vstd::arithmetic::div_mod::lemma_fundamental_div_mod(b, k);
    assert(a / k > 0) by (nonlinear_arith)
        requires
            a == k * (a / k) + a % k,
            0 <= a % k < k,
            a >= k,
            k > 0,
    ;
    assert(a / k <= b / k + 1) by (nonlinear_arith)
        requires
            a == k * (a / k) + a % k,
            b == k * (b / k) + b % k,
            0 <= a % k < k,
            0 <= b % k < k,
            a < b + k,
            k > 0,
    ;
}

// ---------------------------------------------------------------------------------------------
// Results
// ---------------------------------------------------------------------------------------------
/// The result of a test. The duration in milliseconds is held by the bits of its floating-point
/// number.
#[derive(Debug)]
pub struct TestResult {
    pub nodeid: String,
    pub outcome: String,
    pub duration_bits: u64,
    pub stdout: String,
    pub stderr: String,
    pub error: Option<ErrorInfo>,
    pub error_type: Option<String>,
}

/// What is known of a failure.
#[derive(Debug)]
pub struct ErrorInfo {
    pub traceback: Option<String>,
    pub reason: Option<String>,
}

/// View of an [`ErrorInfo`].
pub ghost struct ErrorInfoView {
    pub traceback: Option<Seq<char>>,
    pub reason: Option<Seq<char>>,
}

/// View of a [`TestResult`].
pub ghost struct ResultView {
    pub nodeid: Seq<char>,
    pub outcome: Seq<char>,
    pub duration_bits: u64,
    pub stdout: Seq<char>,
    pub stderr: Seq<char>,
    pub error: Option<ErrorInfoView>,
    pub error_type: Option<Seq<char>>,
}

impl ErrorInfo {
    pub open spec fn view(&self) -> ErrorInfoView {
        ErrorInfoView { traceback: text_of(self.traceback), reason: text_of(self.reason) }
    }
}

impl TestResult {
    pub open spec fn view(&self) -> ResultView {
        ResultView {
            nodeid: self.nodeid@,
            outcome: self.outcome@,
            duration_bits: self.duration_bits,
            stdout: self.stdout@,
            stderr: self.stderr@,
            error: match self.error {
                Some(error) => Some(error@),
                None => None,
            },
            error_type: text_of(self.error_type),
        }
    }

    fn copy(&self) -> (r: TestResult)
        ensures
            r@ == self@,
    {
        TestResult {
            nodeid: copy(self.nodeid.as_str()),
            outcome: copy(self.outcome.as_str()),
            duration_bits: self.duration_bits,
            stdout: copy(self.stdout.as_str()),
            stderr: copy(self.stderr.as_str()),
            error: match &self.error {
                Some(error) => Some(
                    ErrorInfo {
                        traceback: copy_option(&error.traceback),
                        reason: copy_option(&error.reason),
                    },
                ),
                None => None,
            },
            error_type: copy_option(&self.error_type),
        }
    }
}

pub open spec fn result_views(list: Seq<TestResult>) -> Seq<ResultView> {
    Seq::new(list.len(), |i: int| list[i].view())
}

/// The results of all workers, one worker after the other.
pub open spec fn all_results(lists: Seq<Vec<TestResult>>) -> Seq<ResultView>
    decreases lists.len(),
{
    if lists.len() == 0 {
        seq![]
    } else {
        all_results(lists.drop_last()) + result_views(lists.last()@)
    }
}

/// What the results of a run add up to. The durations stand in the order of the results.
#[derive(Debug)]
pub struct AggregatedResults {
    pub passed: usize,
    pub failed: usize,
    pub error: usize,
    pub skipped: usize,
    pub total: usize,
    pub duration_bits: Vec<u64>,
    pub failures: Vec<TestResult>,
    pub errors: Vec<TestResult>,
}

/// View of [`AggregatedResults`].
pub ghost struct AggregateView {
    pub passed: nat,
    pub failed: nat,
    pub error: nat,
    pub skipped: nat,
    pub total: nat,
    pub duration_bits: Seq<u64>,
    pub failures: Seq<ResultView>,
    pub errors: Seq<ResultView>,
}

impl AggregatedResults {
    pub open spec fn view(&self) -> AggregateView {
        AggregateView {
            passed: self.passed as nat,
            failed: self.failed as nat,
            error: self.error as nat,
            skipped: self.skipped as nat,
            total: self.total as nat,
            duration_bits: self.duration_bits@,
            failures: result_views(self.failures@),
            errors: result_views(self.errors@),
        }
    }
}

/// The results with that outcome, in order.
pub open spec fn with_outcome(results: Seq<ResultView>, outcome: Seq<char>) -> Seq<ResultView> {
    results.filter(|r: ResultView| r.outcome == outcome)
}

/// The outcomes that are counted as what they say.
pub open spec fn is_known(outcome: Seq<char>) -> bool {
    outcome == "passed"@ || outcome == "failed"@ || outcome == "error"@ || outcome == "skipped"@
}

/// What results add up to: each outcome is counted, an unknown one as an error; failures and errors
/// are kept.
pub open spec fn aggregate(results: Seq<ResultView>) -> AggregateView {
    AggregateView {
        passed: with_outcome(results, "passed"@).len(),
        failed: with_outcome(results, "failed"@).len(),
        error: with_outcome(results, "error"@).len() + results.filter(
            |r: ResultView| !is_known(r.outcome),
        ).len(),
        skipped: with_outcome(results, "skipped"@).len(),
        total: results.len(),
        duration_bits: Seq::new(results.len(), |i: int| results[i].duration_bits),
        failures: with_outcome(results, "failed"@),
        errors: with_outcome(results, "error"@),
    }
}

/// One result more: how each part of the aggregate changes.
pub proof fn lemma_aggregate_push(results: Seq<ResultView>, r: ResultView)
    ensures
        aggregate(results.push(r)).total == aggregate(results).total + 1,
        aggregate(results.push(r)).duration_bits == aggregate(results).duration_bits.push(
            r.duration_bits,
        ),
        with_outcome(results.push(r), "passed"@) == pushed_if(
            with_outcome(results, "passed"@),
            r,
            "passed"@,
        ),
        with_outcome(results.push(r), "failed"@) == pushed_if(
            with_outcome(results, "failed"@),
            r,
            "failed"@,
        ),
        with_outcome(results.push(r), "error"@) == pushed_if(
            with_outcome(results, "error"@),
            r,
            "error"@,
        ),
        with_outcome(results.push(r), "skipped"@) == pushed_if(
            with_outcome(results, "skipped"@),
            r,
            "skipped"@,
        ),
        results.push(r).filter(|x: ResultView| !is_known(x.outcome)).len() == results.filter(
            |x: ResultView| !is_known(x.outcome),
        ).len() + if is_known(r.outcome) {
            0int
        } else {
            1int
        },
{
    broadcast use vstd::seq_lib::group_filter_ensures;

    let more = results.push(r);
    assert(more.drop_last() =~= results);
    reveal(Seq::filter);
    assert(aggregate(more).duration_bits =~= aggregate(results).duration_bits.push(
        r.duration_bits,
    ));
}

/// `list` with `r` behind it, where that has the outcome.
pub open spec fn pushed_if(list: Seq<ResultView>, r: ResultView, outcome: Seq<char>) -> Seq<
    ResultView,
> {
    if r.outcome == outcome {
        list.push(r)
    } else {
        list
    }
}

/// The outcomes are told apart.
proof fn lemma_outcomes_differ()
    ensures
        "passed"@ != "failed"@,
        "passed"@ != "error"@,
        "passed"@ != "skipped"@,
        "failed"@ != "error"@,
        "failed"@ != "skipped"@,
        "error"@ != "skipped"@,
{
    reveal_strlit("passed");
    reveal_strlit("failed");
    reveal_strlit("error");
    reveal_strlit("skipped");
    assert("passed"@[0] != "failed"@[0]);
    assert("passed"@.len() == 6 && "failed"@.len() == 6);
    assert("error"@.len() == 5 && "skipped"@.len() == 7);
}

fn push_result(list: &mut Vec<TestResult>, result: &TestResult)
    ensures
        result_views(final(list)@) == result_views(old(list)@).push(result@),
{
    let ghost before = list@;
    list.push(result.copy());
    assert(result_views(list@) =~= result_views(before).push(result@));
}

impl AggregatedResults {
    fn new() -> (r: Self)
        ensures
            r@ == aggregate(seq![]),
    {
        let r = AggregatedResults {
            passed: 0,
            failed: 0,
            error: 0,
            skipped: 0,
            total: 0,
            duration_bits: Vec::new(),
            failures: Vec::new(),
            errors: Vec::new(),
        };
        proof {
            reveal(Seq::filter);
            assert(r@.duration_bits =~= aggregate(seq![]).duration_bits);
            assert(r@.failures =~= aggregate(seq![]).failures);
            assert(r@.errors =~= aggregate(seq![]).errors);
        }
        r
    }

    fn count(&mut self, result: &TestResult, Ghost(done): Ghost<Seq<ResultView>>)
        requires
            old(self)@ == aggregate(done),
            done.len() < usize::MAX,
        ensures
            final(self)@ == aggregate(done.push(result@)),
    {
        proof {
            lemma_aggregate_push(done, result@);
            lemma_outcomes_differ();
            lemma_counts_are_bounded(done);
        }
        self.total = self.total + 1;
        self.duration_bits.push(result.duration_bits);
        let outcome = result.outcome.as_str();
        if same(outcome, "passed") {
            self.passed = self.passed + 1;
        } else if same(outcome, "failed") {
            self.failed = self.failed + 1;
            push_result(&mut self.failures, result);
        } else if same(outcome, "error") {
            self.error = self.error + 1;
            push_result(&mut self.errors, result);
        } else if same(outcome, "skipped") {
            self.skipped = self.skipped + 1;
        } else {
            self.error = self.error + 1;
        }
    }
}

/// No outcome is counted more often than there are results; every result is counted once.
pub proof fn lemma_counts_are_bounded(results: Seq<ResultView>)
    ensures
        aggregate(results).passed + aggregate(results).failed + aggregate(results).error
            + aggregate(results).skipped == results.len(),
    decreases results.len(),
{
    if results.len() == 0 {
        reveal(Seq::filter);
    } else {
        lemma_counts_are_bounded(results.drop_last());
        lemma_aggregate_push(results.drop_last(), results.last());
        lemma_outcomes_differ();
        assert(results.drop_last().push(results.last()) =~= results);
    }
}

/// A run counts neither failures nor errors just where every test passed or was skipped.
pub proof fn lemma_good_results(results: Seq<ResultView>)
    ensures
        aggregate(results).failed == 0 && aggregate(results).error == 0 <==> forall|i: int|
            0 <= i < results.len() ==> (#[trigger] results[i]).outcome == "passed"@
                || results[i].outcome == "skipped"@,
    decreases results.len(),
{
    if results.len() == 0 {
        reveal(Seq::filter);
    } else {
        let front = results.drop_last();
        let last = results.last();
        lemma_good_results(front);
        lemma_aggregate_push(front, last);
        lemma_outcomes_differ();
        assert(front.push(last) =~= results);
        assert(results[results.len() - 1] == last);
        if aggregate(results).failed == 0 && aggregate(results).error == 0 {
            assert forall|i: int| 0 <= i < results.len() implies (#[trigger] results[i]).outcome
                == "passed"@ || results[i].outcome == "skipped"@ by {
                if i < front.len() {
                    assert(front[i] == results[i]);
                }
            }
        } else if forall|i: int|
            0 <= i < results.len() ==> (#[trigger] results[i]).outcome == "passed"@
                || results[i].outcome == "skipped"@ {
            assert forall|i: int| 0 <= i < front.len() implies (#[trigger] front[i]).outcome
                == "passed"@ || front[i].outcome == "skipped"@ by {
                assert(front[i] == results[i]);
            }
        }
    }
}

/// Adds up the results of all workers.
pub fn aggregate_results(lists: &Vec<Vec<TestResult>>) -> (r: AggregatedResults)
    requires
        all_results(lists@).len() <= usize::MAX,
    ensures
        r@ == aggregate(all_results(lists@)),
{
    let mut aggregated = AggregatedResults::new();
    let ghost all = all_results(lists@);
    let ghost mut done: Seq<ResultView> = Seq::empty();
    let mut i: usize = 0;
    assert(lists@.take(0) =~= Seq::<Vec<TestResult>>::empty());
    assert(done =~= all_results(lists@.take(0)));
    while i < lists.len()
        invariant
            i <= lists@.len(),
            all == all_results(lists@),
            all.len() <= usize::MAX,
            done == all_results(lists@.take(i as int)),
            aggregated@ == aggregate(done),
        decreases lists@.len() - i,
    {
        let list = &lists[i];
        let ghost start = done;
        let ghost views = result_views(list@);
        proof {
            assert(lists@.take(i + 1).drop_last() =~= lists@.take(i as int));
            assert(lists@.take(i + 1).last() == list);
            lemma_prefix_is_shorter(lists@, i + 1);
            assert(start + views.take(0) =~= start);
        }
        let mut k: usize = 0;
        while k < list.len()
            invariant
                k <= list@.len(),
                views == result_views(list@),
                start.len() + views.len() <= usize::MAX,
                done == start + views.take(k as int),
                aggregated@ == aggregate(done),
            decreases list@.len() - k,
        {
            aggregated.count(&list[k], Ghost(done));
            proof {
                assert(start + views.take(k + 1) =~= done.push(views[k as int]));
                done = done.push(views[k as int]);
            }
            k = k + 1;
        }
        assert(views.take(views.len() as int) =~= views);
        i = i + 1;
    }
    assert(lists@.take(lists@.len() as int) =~= lists@);
    aggregated
}

proof fn lemma_prefix_is_shorter(lists: Seq<Vec<TestResult>>, n: int)
    requires
        0 <= n <= lists.len(),
    ensures
        all_results(lists.take(n)).len() <= all_results(lists).len(),
    decreases lists.len() - n,
{
    if n < lists.len() {
        lemma_prefix_is_shorter(lists, n + 1);
        assert(lists.take(n + 1).drop_last() =~= lists.take(n));
    } else {
        assert(lists.take(n) =~= lists);
    }
}

// ---------------------------------------------------------------------------------------------
// Lines
// ---------------------------------------------------------------------------------------------
/// A text without a carriage return at its end.
pub open spec fn without_return(s: Seq<char>) -> Seq<char> {
    if s.len() > 0 && s.last() == '\r' {
        s.drop_last()
    } else {
        s
    }
}

/// The lines of a text. Lines end with a newline, before which a carriage return may stand; what
/// follows the last newline is a line unless it is empty.
pub open spec fn lines_of(s: Seq<char>) -> Seq<Seq<char>> {
    let parts = pieces(s, '\n');
    let ended = Seq::new((parts.len() - 1) as nat, |i: int| without_return(parts[i]));
    if parts.last().len() == 0 {
        ended
    } else {
        ended.push(parts.last())
    }
}

/// The lines of a text.
pub fn lines(s: &str) -> (r: Vec<String>)
    ensures
        texts(r@) == lines_of(s@),
{
    let parts = split(s, '\n');
    let ghost all = pieces(s@, '\n');
    let n = parts.len();
    let mut r: Vec<String> = Vec::new();
    let mut i: usize = 0;
    while i < n - 1
        invariant
            n == parts@.len(),
            n > 0,
            i <= n - 1,
            all == texts(parts@),
            r@.len() == i,
            forall|j: int| 0 <= j < i ==> (#[trigger] r@[j])@ == without_return(all[j]),
        decreases n - i,
    {
        let chars = chars_of(parts[i].as_str());
        let m = chars.len();
        assert(all[i as int] == parts@[i as int]@);
        if m > 0 && chars[m - 1] == '\r' {
            let line = string_of(chars.as_slice(), 0, m - 1);
            assert(line@ =~= all[i as int].drop_last());
            r.push(line);
        } else {
            r.push(copy(parts[i].as_str()));
        }
        i = i + 1;
    }
    let ghost ended = Seq::new((all.len() - 1) as nat, |i: int| without_return(all[i]));
    assert(texts(r@) =~= ended);
    assert(all.last() == parts@[n - 1]@);
    if !parts[n - 1].as_str().is_empty() {
        push_text(&mut r, parts[n - 1].as_str());
    }
    r
}

/// The lines that are not blank, each with its number, counted from 1.
pub open spec fn numbered(list: Seq<Seq<char>>) -> Seq<(nat, Seq<char>)>
    decreases list.len(),
{
    if list.len() == 0 {
        seq![]
    } else {
        let before = numbered(list.drop_last());
        if trimmed(list.last()).len() == 0 {
            before
        } else {
            before.push((list.len(), list.last()))
        }
    }
}

pub open spec fn numbered_views(list: Seq<(usize, String)>) -> Seq<(nat, Seq<char>)> {
    Seq::new(list.len(), |i: int| (list[i].0 as nat, list[i].1@))
}

/// The lines of a results file that hold a result, each with its number.
pub fn parse_results_file(content: &str) -> (r: Vec<(usize, String)>)
    ensures
        numbered_views(r@) == numbered(lines_of(content@)),
{
    let list = lines(content);
    let ghost all = lines_of(content@);
    let mut r: Vec<(usize, String)> = Vec::new();
    let mut i: usize = 0;
    proof {
        assert(all.take(0) =~= Seq::<Seq<char>>::empty());
        assert(numbered_views(r@) =~= Seq::<(nat, Seq<char>)>::empty());
    }
    while i < list.len()
        invariant
            i <= list.len(),
            all == texts(list@),
            numbered_views(r@) == numbered(all.take(i as int)),
        decreases list.len() - i,
    {
        proof {
            assert(all.take(i + 1).drop_last() =~= all.take(i as int));
            assert(all.take(i + 1).last() == list@[i as int]@);
        }
        let ghost before = r@;
        let blank = trim(list[i].as_str());
        if !blank.as_str().is_empty() {
            r.push((i + 1, copy(list[i].as_str())));
            assert(numbered_views(r@) =~= numbered_views(before).push(
                ((i + 1) as nat, list@[i as int]@),
            ));
        }
        i = i + 1;
    }
    assert(all.take(all.len() as int) =~= all);
    r
}

/// Why a line of a results file could not be read.
pub fn result_line_message(number: usize, failure: &str) -> (r: String)
    ensures
        r@ == "Failed to parse JSON on line "@ + nat_text(number as nat) + ": "@ + failure@,
{
    let mut r = copy("Failed to parse JSON on line ");
    r.append(usize_string(number).as_str());
    r.append(": ");
    r.append(failure);
    r
}

// ---------------------------------------------------------------------------------------------
// Summary
// ---------------------------------------------------------------------------------------------
/// Lines with four blanks before each.
pub open spec fn indented(list: Seq<Seq<char>>) -> Seq<Seq<char>> {
    Seq::new(list.len(), |i: int| "    "@ + list[i])
}

/// The lines that tell a failure: the traceback, or else the reason.
pub open spec fn error_lines(error: ErrorInfoView) -> Seq<Seq<char>> {
    match error.traceback {
        Some(traceback) => indented(lines_of(traceback)),
        None => match error.reason {
            Some(reason) => seq!["    "@ + reason],
            None => seq![],
        },
    }
}

/// The lines for a result: its node, then its failure.
pub open spec fn result_lines(result: ResultView) -> Seq<Seq<char>> {
    seq!["  "@ + result.nodeid] + match result.error {
        Some(error) => error_lines(error),
        None => seq![],
    }
}

/// The lines for results, one result after the other.
pub open spec fn results_lines(results: Seq<ResultView>) -> Seq<Seq<char>>
    decreases results.len(),
{
    if results.len() == 0 {
        seq![]
    } else {
        results_lines(results.drop_last()) + result_lines(results.last())
    }
}

/// A section of the summary: an empty line, the label and the results, or nothing without results.
pub open spec fn section_lines(label: Seq<char>, results: Seq<ResultView>) -> Seq<Seq<char>> {
    if results.len() == 0 {
        seq![]
    } else {
        seq![seq![], label + ":"@] + results_lines(results)
    }
}

/// A count and what it counts, where it is not zero.
pub open spec fn counted(count: nat, what: Seq<char>) -> Seq<Seq<char>> {
    if count > 0 {
        seq![nat_text(count) + what]
    } else {
        seq![]
    }
}

/// The last line of the summary.
pub open spec fn status_line(results: AggregateView, seconds: Seq<char>) -> Seq<char> {
    let status = if results.failed > 0 || results.error > 0 {
        "FAILED"@
    } else {
        "PASSED"@
    };
    let parts = counted(results.passed, " passed"@) + counted(results.failed, " failed"@) + counted(
        results.error,
        " error"@,
    ) + counted(results.skipped, " skipped"@);
    "========== "@ + status + " "@ + joined(parts, ", "@) + " in "@ + seconds + "s =========="@
}

/// The lines of the summary.
pub open spec fn summary_text(results: AggregateView, seconds: Seq<char>) -> Seq<Seq<char>> {
    seq![
        seq![],
        "================================ SUMMARY ================================"@,
    ] + section_lines("FAILURES"@, results.failures) + section_lines("ERRORS"@, results.errors) + seq![
        seq![],
        status_line(results, seconds),
    ]
}

fn push_joined(list: &mut Vec<String>, a: &str, b: &str)
    ensures
        texts(final(list)@) == texts(old(list)@).push(a@ + b@),
{
    let mut s = copy(a);
    s.append(b);
    push_text(list, s.as_str());
}

/// Adds the lines that tell a failure.
pub fn print_error_info(error: &ErrorInfo, out: &mut Vec<String>)
    ensures
        texts(final(out)@) == texts(old(out)@) + error_lines(error@),
{
    let ghost before = texts(out@);
    if let Some(traceback) = &error.traceback {
        let list = lines(traceback.as_str());
        let ghost all = lines_of(traceback@);
        let mut i: usize = 0;
        assert(before + indented(all).take(0) =~= before);
        while i < list.len()
            invariant
                i <= list@.len(),
                all == texts(list@),
                texts(out@) == before + indented(all).take(i as int),
            decreases list@.len() - i,
        {
            push_joined(out, "    ", list[i].as_str());
            proof {
                assert(all[i as int] == list@[i as int]@);
                assert(before + indented(all).take(i + 1) =~= (before + indented(all).take(
                    i as int,
                )).push("    "@ + all[i as int]));
            }
            i = i + 1;
        }
        assert(indented(all).take(all.len() as int) =~= indented(all));
    } else if let Some(reason) = &error.reason {
        push_joined(out, "    ", reason.as_str());
        assert(texts(out@) =~= before + seq!["    "@ + reason@]);
    } else {
        assert(texts(out@) =~= before + Seq::<Seq<char>>::empty());
    }
}

/// Adds a section of the summary.
pub fn print_test_results(label: &str, results: &Vec<TestResult>, out: &mut Vec<String>)
    ensures
        texts(final(out)@) == texts(old(out)@) + section_lines(label@, result_views(results@)),
{
    let ghost start = texts(out@);
    if results.len() == 0 {
        assert(texts(out@) =~= start + Seq::<Seq<char>>::empty());
        return;
    }
    push_text(out, "");
    push_joined(out, label, ":");
    let ghost views = result_views(results@);
    let ghost before = texts(out@);
    proof {
        reveal_strlit("");
        assert(""@ =~= Seq::<char>::empty());
        assert(before =~= start + seq![seq![], label@ + ":"@]);
        assert(views.take(0) =~= Seq::<ResultView>::empty());
        assert(before + results_lines(views.take(0)) =~= before);
    }
    let mut i: usize = 0;
    while i < results.len()
        invariant
            i <= results@.len(),
            views == result_views(results@),
            texts(out@) == before + results_lines(views.take(i as int)),
        decreases results@.len() - i,
    {
        let result = &results[i];
        let ghost reached = texts(out@);
        push_joined(out, "  ", result.nodeid.as_str());
        proof {
            assert(views.take(i + 1).drop_last() =~= views.take(i as int));
            assert(views.take(i + 1).last() == result@);
            assert(texts(out@) =~= reached + seq!["  "@ + result.nodeid@]);
        }
        if let Some(error) = &result.error {
            print_error_info(error, out);
        }
        assert(texts(out@) =~= before + results_lines(views.take(i + 1)));
        i = i + 1;
    }
    proof {
        assert(views.take(views.len() as int) =~= views);
        assert(texts(out@) =~= start + section_lines(label@, views));
    }
}

fn push_count(parts: &mut Vec<String>, count: usize, what: &str)
    ensures
        texts(final(parts)@) == texts(old(parts)@) + counted(count as nat, what@),
{
    let ghost before = texts(parts@);
    if count > 0 {
        push_joined(parts, usize_string(count).as_str(), what);
    }
    assert(texts(parts@) =~= before + counted(count as nat, what@));
}

/// The lines of the summary, with the seconds that the tests took.
pub fn print_summary(results: &AggregatedResults, seconds: &str) -> (r: Vec<String>)
    ensures
        texts(r@) == summary_text(results@, seconds@),
{
    let mut r: Vec<String> = Vec::new();
    push_text(&mut r, "");
    push_text(&mut r, "================================ SUMMARY ================================");
    proof {
        reveal_strlit("");
        assert(""@ =~= Seq::<char>::empty());
        assert(texts(r@) =~= seq![
            seq![],
            "================================ SUMMARY ================================"@,
        ]);
    }
    print_test_results("FAILURES", &results.failures, &mut r);
    print_test_results("ERRORS", &results.errors, &mut r);
    let ghost sections = texts(r@);
    push_text(&mut r, "");
    let mut parts: Vec<String> = Vec::new();
    assert(texts(parts@) =~= Seq::<Seq<char>>::empty());
    push_count(&mut parts, results.passed, " passed");
    push_count(&mut parts, results.failed, " failed");
    push_count(&mut parts, results.error, " error");
    push_count(&mut parts, results.skipped, " skipped");
    proof {
        assert(Seq::<Seq<char>>::empty() + counted(results.passed as nat, " passed"@) =~= counted(
            results.passed as nat,
            " passed"@,
        ));
    }
    let mut line = copy("========== ");
    if results.failed > 0 || results.error > 0 {
        line.append("FAILED");
    } else {
        line.append("PASSED");
    }
    line.append(" ");
    line.append(join(parts.as_slice(), ", ").as_str());
    line.append(" in ");
    line.append(seconds);
    line.append("s ==========");
    push_text(&mut r, line.as_str());
    assert(texts(r@) =~= sections + seq![seq![], status_line(results@, seconds@)]);
    r
}

// ---------------------------------------------------------------------------------------------
// Workers
// ---------------------------------------------------------------------------------------------
/// An option with its values, or nothing without values.
pub open spec fn option_with(name: Seq<char>, values: Seq<Seq<char>>) -> Seq<Seq<char>> {
    if values.len() == 0 {
        seq![]
    } else {
        seq![name] + values
    }
}

/// The arguments of a worker: where to look and where to report, the patterns, then `--` and the
/// files.
pub open spec fn worker_line(
    root: Seq<char>,
    output: Seq<char>,
    files: Seq<Seq<char>>,
    classes: Seq<Seq<char>>,
    functions: Seq<Seq<char>>,
) -> Seq<Seq<char>> {
    seq!["-m"@, "rtest.worker"@, "--root"@, root, "--out"@, output] + option_with(
        "--python-classes"@,
        classes,
    ) + option_with("--python-functions"@, functions) + seq!["--"@] + files
}

fn push_texts(list: &mut Vec<String>, more: &[String])
    ensures
        texts(final(list)@) == texts(old(list)@) + texts(more@),
{
    let ghost before = texts(list@);
    let ghost all = texts(more@);
    let mut i: usize = 0;
    assert(before + all.take(0) =~= before);
    while i < more.len()
        invariant
            i <= more@.len(),
            all == texts(more@),
            texts(list@) == before + all.take(i as int),
        decreases more@.len() - i,
    {
        push_text(list, more[i].as_str());
        assert(before + all.take(i + 1) =~= (before + all.take(i as int)).push(more@[i as int]@));
        i = i + 1;
    }
    assert(all.take(all.len() as int) =~= all);
}

fn push_option(list: &mut Vec<String>, name: &str, values: &[String])
    ensures
        texts(final(list)@) == texts(old(list)@) + option_with(name@, texts(values@)),
{
    let ghost before = texts(list@);
    if values.len() > 0 {
        push_text(list, name);
        push_texts(list, values);
    }
    assert(texts(list@) =~= before + option_with(name@, texts(values@)));
}

/// The arguments that a worker is started with.
pub fn worker_arguments(
    root: &str,
    output_file: &str,
    files: &[String],
    python_classes: &[String],
    python_functions: &[String],
) -> (r: Vec<String>)
    ensures
        texts(r@) == worker_line(
            root@,
            output_file@,
            texts(files@),
            texts(python_classes@),
            texts(python_functions@),
        ),
{
    let mut r: Vec<String> = Vec::new();
    push_text(&mut r, "-m");
    push_text(&mut r, "rtest.worker");
    push_text(&mut r, "--root");
    push_text(&mut r, root);
    push_text(&mut r, "--out");
    push_text(&mut r, output_file);
    assert(texts(r@) =~= seq![
        "-m"@,
        "rtest.worker"@,
        "--root"@,
        root@,
        "--out"@,
        output_file@,
    ]);
    push_option(&mut r, "--python-classes", python_classes);
    push_option(&mut r, "--python-functions", python_functions);
    // Use -- to separate options from positional file arguments
    let ghost options = texts(r@);
    push_text(&mut r, "--");
    assert(texts(r@) =~= options + seq!["--"@]);
    push_texts(&mut r, files);
    r
}

/// The exit code of a worker, -1 where it was ended by a signal.
pub open spec fn code_or(code: Option<i32>) -> int {
    match code {
        Some(code) => code as int,
        None => -1,
    }
}

/// A worker ends as expected with 0, or with 1 where tests failed.
pub open spec fn is_expected(code: Option<i32>) -> bool {
    code == Some(0i32) || code == Some(1i32)
}

/// What is said of a worker that ended unexpectedly.
pub open spec fn crash_text(worker: nat, code: Option<i32>) -> Seq<char> {
    "Worker "@ + nat_text(worker) + " crashed with exit code "@ + int_text(code_or(code))
        + " (expected 0 or 1)"@
}

/// How a worker ended.
#[derive(Debug)]
pub enum WorkerEnd {
    /// As expected.
    Done,
    /// With a failure, and with what to show of its error output.
    Failed(String, Option<String>),
    /// Without an exit.
    Panicked,
}

/// What the exit of a worker means.
pub fn worker_end(worker_id: usize, code: Option<i32>, stderr: &str) -> (r: WorkerEnd)
    ensures
        is_expected(code) ==> r is Done,
        !is_expected(code) ==> {
            &&& r is Failed
            &&& r->Failed_0@ == crash_text(worker_id as nat, code)
            &&& text_of(r->Failed_1) == if trimmed(stderr@).len() == 0 {
                None::<Seq<char>>
            } else {
                Some("Worker "@ + nat_text(worker_id as nat) + " stderr:\n"@ + stderr@)
            }
        },
{
    let exit_code: i32 = match code {
        Some(code) => code,
        None => -1,
    };
    // Exit code 1 is expected when tests fail, only report unexpected codes
    if exit_code == 0 || exit_code == 1 {
        return WorkerEnd::Done;
    }
    let mut message = copy("Worker ");
    message.append(usize_string(worker_id).as_str());
    message.append(" crashed with exit code ");
    message.append(i64_string(exit_code as i64).as_str());
    message.append(" (expected 0 or 1)");
    let shown = trim(stderr);
    if shown.as_str().is_empty() {
        return WorkerEnd::Failed(message, None);
    }
    let mut notice = copy("Worker ");
    notice.append(usize_string(worker_id).as_str());
    notice.append(" stderr:\n");
    notice.append(stderr);
    WorkerEnd::Failed(message, Some(notice))
}

/// What it means that a worker could not be started.
pub fn worker_not_started(worker_id: usize, failure: &str) -> (r: WorkerEnd)
    ensures
        r is Failed,
        r->Failed_0@ == "Worker "@ + nat_text(worker_id as nat) + " failed to start: "@ + failure@,
        r->Failed_1 is None,
{
    let mut message = copy("Worker ");
    message.append(usize_string(worker_id).as_str());
    message.append(" failed to start: ");
    message.append(failure);
    WorkerEnd::Failed(message, None)
}

/// What is reported of the workers that did not end as expected, in their order.
pub open spec fn end_texts(ends: Seq<WorkerEnd>) -> Seq<Seq<char>>
    decreases ends.len(),
{
    if ends.len() == 0 {
        seq![]
    } else {
        let before = end_texts(ends.drop_last());
        let worker = "Worker "@ + nat_text((ends.len() - 1) as nat);
        match ends.last() {
            WorkerEnd::Done => before,
            WorkerEnd::Failed(message, _) => before.push(worker + ": "@ + message@),
            WorkerEnd::Panicked => before.push(worker + " panicked"@),
        }
    }
}

/// Reports the workers that did not end as expected.
pub fn worker_errors(ends: &Vec<WorkerEnd>) -> (r: Vec<String>)
    ensures
        texts(r@) == end_texts(ends@),
{
    let mut r: Vec<String> = Vec::new();
    let mut i: usize = 0;
    proof {
        assert(ends@.take(0) =~= Seq::<WorkerEnd>::empty());
        assert(texts(r@) =~= Seq::<Seq<char>>::empty());
    }
    while i < ends.len()
        invariant
            i <= ends@.len(),
            texts(r@) == end_texts(ends@.take(i as int)),
        decreases ends@.len() - i,
    {
        proof {
            assert(ends@.take(i + 1).drop_last() =~= ends@.take(i as int));
            assert(ends@.take(i + 1).last() == ends@[i as int]);
        }
        let mut text = copy("Worker ");
        text.append(usize_string(i).as_str());
        match &ends[i] {
            WorkerEnd::Done => {},
            WorkerEnd::Failed(message, _) => {
                text.append(": ");
                text.append(message.as_str());
                push_text(&mut r, text.as_str());
            },
            WorkerEnd::Panicked => {
                text.append(" panicked");
                push_text(&mut r, text.as_str());
            },
        }
        i = i + 1;
    }
    assert(ends@.take(ends@.len() as int) =~= ends@);
    r
}

// ---------------------------------------------------------------------------------------------
// Run
// ---------------------------------------------------------------------------------------------
/// What a run of the native runner starts.
#[derive(Debug)]
pub struct NativePlan<T> {
    /// What is shown first.
    pub message: String,
    /// The files of each worker. Without any the run is over, and went well.
    pub shards: Vec<Vec<T>>,
}

/// What is shown at the start of a run.
pub open spec fn run_text(files: nat, workers: nat) -> Seq<char> {
    "Running "@ + nat_text(files) + " test file(s) with "@ + nat_text(workers) + " worker(s)"@
}

/// Plans a run: how many workers there are and which files each is given.
pub fn execute_native<T>(config: &NativeRunnerConfig, test_files: Vec<T>) -> (r: NativePlan<T>)
    ensures
        test_files@.len() == 0 ==> r.message@ == "No test files to run."@ && r.shards@.len() == 0,
        test_files@.len() > 0 ==> {
            let workers = if config.num_workers == 0 {
                1nat
            } else {
                config.num_workers as nat
            };
            &&& r.message@ == run_text(test_files@.len(), workers)
            &&& r.shards@.len() == shard_count(test_files@.len(), workers)
            &&& forall|w: int|
                0 <= w < r.shards@.len() ==> (#[trigger] r.shards@[w])@ == shard_of(
                    test_files@,
                    w,
                    r.shards@.len() as int,
                )
        },
{
    if test_files.len() == 0 {
        return NativePlan { message: copy("No test files to run."), shards: Vec::new() };
    }
    let num_workers: usize = if config.num_workers == 0 {
        1
    } else {
        config.num_workers
    };
    let mut message = copy("Running ");
    message.append(usize_string(test_files.len()).as_str());
    message.append(" test file(s) with ");
    message.append(usize_string(num_workers).as_str());
    message.append(" worker(s)");
    NativePlan { message, shards: shard_files(test_files, num_workers) }
}

/// The name of the file to which a worker reports.
pub fn output_name(worker_id: usize) -> (r: String)
    ensures
        r@ == "worker-"@ + nat_text(worker_id as nat) + ".jsonl"@,
{
    let mut r = copy("worker-");
    r.append(usize_string(worker_id).as_str());
    r.append(".jsonl");
    r
}

/// The exit code of a run: 1 where a test or a worker failed, else 0.
pub open spec fn exit_code_of(results: AggregateView, worker_errors: Seq<Seq<char>>) -> i32 {
    if results.failed > 0 || results.error > 0 || worker_errors.len() > 0 {
        1
    } else {
        0
    }
}

/// The exit code of a run: 1 where a test or a worker failed, else 0.
pub fn run_exit_code(results: &AggregatedResults, worker_errors: &Vec<String>) -> (r: i32)
    ensures
        r == exit_code_of(results@, texts(worker_errors@)),
{
    if results.failed > 0 || results.error > 0 || worker_errors.len() > 0 {
        1
    } else {
        0
    }
}

/// The test passed or was skipped.
pub open spec fn is_good(result: ResultView) -> bool {
    result.outcome == "passed"@ || result.outcome == "skipped"@
}

proof fn lemma_end_texts(ends: Seq<WorkerEnd>)
    ensures
        end_texts(ends).len() == 0 <==> forall|i: int|
            0 <= i < ends.len() ==> (#[trigger] ends[i]) is Done,
    decreases ends.len(),
{
    if ends.len() > 0 {
        let front = ends.drop_last();
        let last = ends[ends.len() - 1];
        lemma_end_texts(front);
        assert(ends.last() == last);
        assert forall|i: int| 0 <= i < front.len() implies front[i] == #[trigger] ends[i] by {}
        if end_texts(ends).len() == 0 {
            assert forall|i: int| 0 <= i < ends.len() implies (#[trigger] ends[i]) is Done by {
                if i < front.len() {
                    assert(front[i] is Done);
                }
            }
        } else if forall|i: int| 0 <= i < ends.len() ==> (#[trigger] ends[i]) is Done {
            assert(last is Done);
            assert forall|i: int| 0 <= i < front.len() implies (#[trigger] front[i]) is Done by {
                assert(ends[i] is Done);
            }
        }
    }
}

/// A run ends with 1 exactly where some result that was read is neither passed nor skipped, or some
/// worker did not end as expected. Else it ends with 0.
pub proof fn lemma_exit_code(lists: Seq<Vec<TestResult>>, ends: Seq<WorkerEnd>)
    ensures
        ({
            let results = all_results(lists);
            let code = exit_code_of(aggregate(results), end_texts(ends));
            let failed = exists|i: int| 0 <= i < results.len() && !is_good(#[trigger] results[i]);
            let crashed = exists|i: int| 0 <= i < ends.len() && !((#[trigger] ends[i]) is Done);
            &&& code == 1 <==> failed || crashed
            &&& code == 0 <==> !failed && !crashed
        }),
{
    let results = all_results(lists);
    lemma_good_results(results);
    lemma_end_texts(ends);
    assert((forall|i: int| 0 <= i < results.len() ==> is_good(#[trigger] results[i])) <==> (forall|
        i: int,
    |
        0 <= i < results.len() ==> (#[trigger] results[i]).outcome == "passed"@
            || results[i].outcome == "skipped"@));
}

// ---------------------------------------------------------------------------------------------
// Test files
// ---------------------------------------------------------------------------------------------
/// The names that are passed over when directories are searched.
pub open spec fn is_passed_over(name: Seq<char>) -> bool {
    (name.len() > 0 && name[0] == '.') || name == "__pycache__"@
}

/// Whether a file or directory is passed over when directories are searched.
pub fn is_hidden_or_ignored(name: &str) -> (r: bool)
    ensures
        r == is_passed_over(name@),
{
    proof {
        reveal_strlit(".");
        assert("."@ =~= seq!['.']);
        if name@.len() > 0 {
            assert(name@.subrange(0, 1)[0] == name@[0]);
            assert(name@[0] == '.' ==> "."@ =~= name@.subrange(0, 1));
        }
    }
    starts_with(name, ".") || same(name, "__pycache__")
}

/// The name ends with the extension of Python sources, behind some other character.
pub open spec fn is_python_name(name: Seq<char>) -> bool {
    name.len() > 3 && ".py"@.is_suffix_of(name)
}

/// What may come of asking whether a name is that of a test file. The name of no Python file is
/// not.
pub open spec fn may_be_test_name(
    name: Seq<char>,
    patterns: Seq<Seq<char>>,
    verdict: bool,
) -> bool {
    if is_python_name(name) {
        may_match_any(patterns, name, verdict)
    } else {
        !verdict
    }
}

/// Check if a file with that name matches any of the python_files patterns
pub fn is_test_file(file_name: &str, patterns: &[String]) -> (r: bool)
    ensures
        may_be_test_name(file_name@, texts(patterns@), r),
        no_backslash(file_name@) && no_backslashes(texts(patterns@)) ==> r == (is_python_name(
            file_name@,
        ) && any_glob_accepts(texts(patterns@), file_name@)),
{
    let n = chars_of(file_name).len();
    n > 3 && ends_with(file_name, ".py") && glob_match_any(patterns, file_name)
}

/// Something that was found on disk, by the names on its path.
#[derive(Debug)]
pub struct FoundPath {
    pub names: Vec<String>,
    pub is_file: bool,
}

/// View of a [`FoundPath`].
pub ghost struct FoundView {
    pub names: Seq<Seq<char>>,
    pub is_file: bool,
}

impl FoundPath {
    pub open spec fn view(&self) -> FoundView {
        FoundView { names: texts(self.names@), is_file: self.is_file }
    }
}

pub open spec fn found_views(list: Seq<FoundPath>) -> Seq<FoundView> {
    Seq::new(list.len(), |i: int| list[i].view())
}

/// The last name on a path, or nothing.
pub open spec fn last_name(names: Seq<Seq<char>>) -> Seq<char> {
    if names.len() == 0 {
        seq![]
    } else {
        names.last()
    }
}

/// What was found is a test file.
pub open spec fn is_wanted(found: FoundView, patterns: Seq<Seq<char>>) -> bool {
    found.is_file && is_python_name(last_name(found.names)) && any_glob_accepts(
        patterns,
        last_name(found.names),
    )
}

/// The paths of the test files among what was found, in the order in which they were found.
pub open spec fn test_paths(found: Seq<FoundView>, patterns: Seq<Seq<char>>) -> Seq<Seq<Seq<char>>>
    decreases found.len(),
{
    if found.len() == 0 {
        seq![]
    } else {
        let before = test_paths(found.drop_last(), patterns);
        if is_wanted(found.last(), patterns) {
            before.push(found.last().names)
        } else {
            before
        }
    }
}

/// The paths of the Python files among what was found, in the order in which they were found.
pub open spec fn python_paths(found: Seq<FoundView>) -> Seq<Seq<Seq<char>>>
    decreases found.len(),
{
    if found.len() == 0 {
        seq![]
    } else {
        let before = python_paths(found.drop_last());
        if found.last().is_file && is_python_name(last_name(found.last().names)) {
            before.push(found.last().names)
        } else {
            before
        }
    }
}

/// What may come of asking of each of what was found whether it is a test file.
pub open spec fn are_judged(
    found: Seq<FoundView>,
    patterns: Seq<Seq<char>>,
    verdicts: Seq<bool>,
) -> bool {
    verdicts.len() == found.len() && forall|i: int|
        0 <= i < found.len() ==> if (#[trigger] found[i]).is_file {
            may_be_test_name(last_name(found[i].names), patterns, verdicts[i])
        } else {
            !verdicts[i]
        }
}

/// The paths that were taken for those of test files, in the order in which they were found.
pub open spec fn judged_paths(found: Seq<FoundView>, verdicts: Seq<bool>) -> Seq<Seq<Seq<char>>>
    decreases found.len(),
{
    if found.len() == 0 {
        seq![]
    } else {
        let before = judged_paths(found.drop_last(), verdicts.take(found.len() - 1));
        if verdicts[found.len() - 1] {
            before.push(found.last().names)
        } else {
            before
        }
    }
}

/// No name of a file holds a backslash.
pub open spec fn names_portable(found: Seq<FoundView>) -> bool {
    forall|i: int| 0 <= i < found.len() ==> no_backslash(last_name((#[trigger] found[i]).names))
}

/// The paths of the test files among what was found, sorted. Each is that of a Python file, and is
/// listed no more often than it was found. What was found is judged one by one, by its name alone.
pub fn collect_test_files(found: Vec<FoundPath>, patterns: &[String]) -> (r: Vec<Vec<String>>)
    ensures
        paths_sorted(text_lists(r@)),
        text_lists(r@).to_multiset().subset_of(python_paths(found_views(found@)).to_multiset()),
        exists|verdicts: Seq<bool>| #[trigger]
            are_judged(found_views(found@), texts(patterns@), verdicts) && text_lists(
                r@,
            ).to_multiset() == judged_paths(found_views(found@), verdicts).to_multiset(),
        names_portable(found_views(found@)) && no_backslashes(texts(patterns@)) ==> text_lists(
            r@,
        ).to_multiset() == test_paths(found_views(found@), texts(patterns@)).to_multiset(),
{
    let ghost all = found@;
    let ghost views = found_views(all);
    let ghost globs = texts(patterns@);
    let ghost mut verdicts: Seq<bool> = Seq::empty();
    let mut r: Vec<Vec<String>> = Vec::new();
    proof {
        assert(views.take(0) =~= Seq::<FoundView>::empty());
        assert(text_lists(r@) =~= Seq::<Seq<Seq<char>>>::empty());
    }
    for path in it: found.into_iter()
        invariant
            it.seq() == all,
            views == found_views(all),
            globs == texts(patterns@),
            paths_sorted(text_lists(r@)),
            text_lists(r@).to_multiset().subset_of(
                python_paths(views.take(it.index() as int)).to_multiset(),
            ),
            are_judged(views.take(it.index() as int), globs, verdicts),
            text_lists(r@).to_multiset() == judged_paths(
                views.take(it.index() as int),
                verdicts,
            ).to_multiset(),
            names_portable(views) && no_backslashes(globs) ==> text_lists(r@).to_multiset()
                == test_paths(views.take(it.index() as int), globs).to_multiset(),
    {
        let ghost i = it.index() as int;
        let ghost before = text_lists(r@);
        let ghost names = texts(path.names@);
        proof {
            assert(path == all[i]);
            assert(views[i] == path@);
            assert(views.take(i + 1).drop_last() =~= views.take(i));
            assert(views.take(i + 1).last() == path@);
            python_paths(views.take(i)).to_multiset_ensures();
            test_paths(views.take(i), globs).to_multiset_ensures();
            assert(python_paths(views.take(i)).push(names).to_multiset() == python_paths(
                views.take(i),
            ).to_multiset().insert(names));
            assert(test_paths(views.take(i), globs).push(names).to_multiset() == test_paths(
                views.take(i),
                globs,
            ).to_multiset().insert(names));
        }
        let ghost earlier = verdicts;
        let mut wanted: bool = false;
        if path.is_file {
            let n = path.names.len();
            wanted = if n == 0 {
                is_test_file("", patterns)
            } else {
                assert(names.last() == path.names@[n - 1]@);
                is_test_file(path.names[n - 1].as_str(), patterns)
            };
            proof {
                reveal_strlit("");
                assert(""@ =~= Seq::<char>::empty());
                assert(n > 0 ==> last_name(names) == path.names@[n - 1]@);
                assert(wanted ==> is_python_name(last_name(names)));
                if names_portable(views) && no_backslashes(globs) {
                    assert(no_backslash(last_name(views[i].names)));
                    assert(wanted == is_wanted(path@, globs));
                }
            }
        }
        proof {
            let front = views.take(i);
            let more = views.take(i + 1);
            verdicts = verdicts.push(wanted);
            assert(verdicts.take(i) =~= earlier);
            assert forall|k: int| 0 <= k < more.len() implies if (#[trigger] more[k]).is_file {
                may_be_test_name(last_name(more[k].names), globs, verdicts[k])
            } else {
                !verdicts[k]
            } by {
                if k < i {
                    assert(front[k] == more[k]);
                }
            }
            judged_paths(front, earlier).to_multiset_ensures();
            assert(judged_paths(front, earlier).push(names).to_multiset() == judged_paths(
                front,
                earlier,
            ).to_multiset().insert(names));
        }
        if wanted {
            insert_path(&mut r, path.names);
        }
    }
    assert(views.take(views.len() as int) =~= views);
    assert(are_judged(views, globs, verdicts));
    r
}

// ---------------------------------------------------------------------------------------------
// The order in which files are found
// ---------------------------------------------------------------------------------------------
proof fn lemma_test_path_count(found: Seq<FoundView>, patterns: Seq<Seq<char>>, path: Seq<Seq<char>>)
    ensures
        test_paths(found, patterns).to_multiset().count(path) == ({
            let file = FoundView { names: path, is_file: true };
            if is_wanted(file, patterns) {
                found.to_multiset().count(file)
            } else {
                0
            }
        }),
    decreases found.len(),
{
    found.to_multiset_ensures();
    test_paths(found, patterns).to_multiset_ensures();
    if found.len() > 0 {
        let before = found.drop_last();
        let last = found.last();
        lemma_test_path_count(before, patterns, path);
        before.to_multiset_ensures();
        test_paths(before, patterns).to_multiset_ensures();
        assert(found =~= before.push(last));
        assert(found.to_multiset() == before.to_multiset().insert(last));
        assert(test_paths(before, patterns).push(last.names).to_multiset() == test_paths(
            before,
            patterns,
        ).to_multiset().insert(last.names));
    }
}

/// Which test files are listed, and in which order, does not depend on the order in which they were
/// found.
pub proof fn lemma_finding_order_is_immaterial(
    a: Seq<FoundView>,
    b: Seq<FoundView>,
    patterns: Seq<Seq<char>>,
    listed_a: Seq<Seq<Seq<char>>>,
    listed_b: Seq<Seq<Seq<char>>>,
)
    requires
        a.to_multiset() == b.to_multiset(),
        paths_sorted(listed_a),
        listed_a.to_multiset() == test_paths(a, patterns).to_multiset(),
        paths_sorted(listed_b),
        listed_b.to_multiset() == test_paths(b, patterns).to_multiset(),
    ensures
        listed_a == listed_b,
{
    assert forall|path: Seq<Seq<char>>|
        listed_a.to_multiset().count(path) == #[trigger] listed_b.to_multiset().count(path) by {
        lemma_test_path_count(a, patterns, path);
        lemma_test_path_count(b, patterns, path);
    }
    assert(listed_a.to_multiset() =~= listed_b.to_multiset());
    lemma_sorted_paths_are_unique(listed_a, listed_b);
}

/// What was found, each with what came of judging it.
pub open spec fn with_verdicts(found: Seq<FoundView>, verdicts: Seq<bool>) -> Seq<
    (FoundView, bool),
> {
    Seq::new(found.len(), |i: int| (found[i], verdicts[i]))
}

/// The paths that were taken for those of test files, of what was found and judged.
spec fn taken_paths(judged: Seq<(FoundView, bool)>) -> Seq<Seq<Seq<char>>>
    decreases judged.len(),
{
    if judged.len() == 0 {
        seq![]
    } else {
        let before = taken_paths(judged.drop_last());
        if judged.last().1 {
            before.push(judged.last().0.names)
        } else {
            before
        }
    }
}

proof fn lemma_judged_are_taken(found: Seq<FoundView>, verdicts: Seq<bool>)
    requires
        verdicts.len() == found.len(),
    ensures
        judged_paths(found, verdicts) == taken_paths(with_verdicts(found, verdicts)),
    decreases found.len(),
{
    if found.len() > 0 {
        let all = with_verdicts(found, verdicts);
        let n = found.len() - 1;
        lemma_judged_are_taken(found.drop_last(), verdicts.take(n));
        assert(all.drop_last() =~= with_verdicts(found.drop_last(), verdicts.take(n)));
    }
}

proof fn lemma_taken_count(judged: Seq<(FoundView, bool)>, path: Seq<Seq<char>>)
    ensures
        taken_paths(judged).to_multiset().count(path) == judged.to_multiset().count(
            (FoundView { names: path, is_file: true }, true),
        ) + judged.to_multiset().count((FoundView { names: path, is_file: false }, true)),
    decreases judged.len(),
{
    judged.to_multiset_ensures();
    taken_paths(judged).to_multiset_ensures();
    if judged.len() > 0 {
        let before = judged.drop_last();
        let last = judged.last();
        lemma_taken_count(before, path);
        before.to_multiset_ensures();
        taken_paths(before).to_multiset_ensures();
        assert(judged =~= before.push(last));
        assert(judged.to_multiset() == before.to_multiset().insert(last));
        assert(taken_paths(before).push(last.0.names).to_multiset() == taken_paths(
            before,
        ).to_multiset().insert(last.0.names));
        assert(last.0 == (FoundView { names: last.0.names, is_file: last.0.is_file }));
    }
}

/// Whatever comes of judging what was found, the list of test files does not depend on the order in
/// which it was found.
pub proof fn lemma_judging_order_is_immaterial(
    a: Seq<FoundView>,
    verdicts_a: Seq<bool>,
    b: Seq<FoundView>,
    verdicts_b: Seq<bool>,
    listed_a: Seq<Seq<Seq<char>>>,
    listed_b: Seq<Seq<Seq<char>>>,
)
    requires
        verdicts_a.len() == a.len(),
        verdicts_b.len() == b.len(),
        with_verdicts(a, verdicts_a).to_multiset() == with_verdicts(b, verdicts_b).to_multiset(),
        paths_sorted(listed_a),
        listed_a.to_multiset() == judged_paths(a, verdicts_a).to_multiset(),
        paths_sorted(listed_b),
        listed_b.to_multiset() == judged_paths(b, verdicts_b).to_multiset(),
    ensures
        listed_a == listed_b,
{
    lemma_judged_are_taken(a, verdicts_a);
    lemma_judged_are_taken(b, verdicts_b);
    assert forall|path: Seq<Seq<char>>|
        listed_a.to_multiset().count(path) == #[trigger] listed_b.to_multiset().count(path) by {
        lemma_taken_count(with_verdicts(a, verdicts_a), path);
        lemma_taken_count(with_verdicts(b, verdicts_b), path);
    }
    assert(listed_a.to_multiset() =~= listed_b.to_multiset());
    lemma_sorted_paths_are_unique(listed_a, listed_b);
}

/// Whatever comes of judging what was found, only files are listed whose names are those of Python
/// files and may match a pattern.
pub proof fn lemma_only_judged_files_are_listed(
    found: Seq<FoundView>,
    patterns: Seq<Seq<char>>,
    verdicts: Seq<bool>,
    path: Seq<Seq<char>>,
)
    requires
        are_judged(found, patterns, verdicts),
        judged_paths(found, verdicts).contains(path),
    ensures
        is_python_name(last_name(path)),
        may_match_any(patterns, last_name(path), true),
        found.contains(FoundView { names: path, is_file: true }),
    decreases found.len(),
{
    if found.len() > 0 {
        let n = found.len() - 1;
        let before = found.drop_last();
        let earlier = judged_paths(before, verdicts.take(n));
        let last = found[n];
        assert(found.last() == last);
        if verdicts[n] && path == last.names {
            assert(last.is_file);
            assert(found.contains(last));
            assert(last == (FoundView { names: path, is_file: true }));
        } else {
            let k = choose|k: int|
                0 <= k < judged_paths(found, verdicts).len() && judged_paths(found, verdicts)[k]
                    == path;
            assert(k < earlier.len());
            assert(earlier[k] == path);
            assert forall|i: int| 0 <= i < before.len() implies if (#[trigger] before[i]).is_file {
                may_be_test_name(last_name(before[i].names), patterns, verdicts.take(n)[i])
            } else {
                !verdicts.take(n)[i]
            } by {
                assert(before[i] == found[i]);
            }
            lemma_only_judged_files_are_listed(before, patterns, verdicts.take(n), path);
            let file = FoundView { names: path, is_file: true };
            let j = choose|j: int| 0 <= j < before.len() && before[j] == file;
            assert(found[j] == file);
        }
    }
}

/// What is judged to be no test file adds nothing, wherever it was found.
pub proof fn lemma_rejected_adds_nothing(
    before: Seq<FoundView>,
    verdicts: Seq<bool>,
    other: FoundView,
    after: Seq<FoundView>,
    more_verdicts: Seq<bool>,
)
    requires
        verdicts.len() == before.len(),
        more_verdicts.len() == after.len(),
    ensures
        judged_paths(before.push(other) + after, verdicts.push(false) + more_verdicts)
            == judged_paths(before + after, verdicts + more_verdicts),
    decreases after.len(),
{
    let with_other = before.push(other) + after;
    let without = before + after;
    let v = verdicts.push(false) + more_verdicts;
    let w = verdicts + more_verdicts;
    if after.len() == 0 {
        assert(with_other.drop_last() =~= without);
        assert(v.take(with_other.len() - 1) =~= w);
    } else {
        let n = after.len() - 1;
        assert(with_other.drop_last() =~= before.push(other) + after.drop_last());
        assert(without.drop_last() =~= before + after.drop_last());
        assert(v.take(with_other.len() - 1) =~= verdicts.push(false) + more_verdicts.take(n));
        assert(w.take(without.len() - 1) =~= verdicts + more_verdicts.take(n));
        lemma_rejected_adds_nothing(
            before,
            verdicts,
            other,
            after.drop_last(),
            more_verdicts.take(n),
        );
    }
}

/// Only test files are listed: their names are those of Python files and match a pattern.
pub proof fn lemma_only_test_files_are_listed(
    found: Seq<FoundView>,
    patterns: Seq<Seq<char>>,
    path: Seq<Seq<char>>,
)
    requires
        test_paths(found, patterns).contains(path),
    ensures
        is_python_name(last_name(path)),
        any_glob_accepts(patterns, last_name(path)),
        found.contains(FoundView { names: path, is_file: true }),
{
    test_paths(found, patterns).to_multiset_ensures();
    found.to_multiset_ensures();
    lemma_test_path_count(found, patterns, path);
}

/// What is no test file adds nothing to the test files, wherever it was found.
pub proof fn lemma_others_add_nothing(
    before: Seq<FoundView>,
    other: FoundView,
    after: Seq<FoundView>,
    patterns: Seq<Seq<char>>,
)
    requires
        !is_wanted(other, patterns),
    ensures
        test_paths(before.push(other) + after, patterns) == test_paths(before + after, patterns),
    decreases after.len(),
{
    let with_other = before.push(other) + after;
    let without = before + after;
    if after.len() == 0 {
        assert(with_other =~= before.push(other));
        assert(without =~= before);
        assert(with_other.drop_last() =~= before);
    } else {
        assert(with_other.drop_last() =~= before.push(other) + after.drop_last());
        assert(without.drop_last() =~= before + after.drop_last());
        lemma_others_add_nothing(before, other, after.drop_last(), patterns);
    }
}

} // verus!
