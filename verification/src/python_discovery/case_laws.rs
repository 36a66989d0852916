//! What holds of the IDs that parametrized tests expand to.

use crate::display_laws::lemma_part_of_sum;
use crate::python_discovery::cases::{
    combinations, combined_expansion, deduplicated, each_with_each, escaped, escaped_char,
    expanded_ids, marked, marker_text, occurrences, quoted_nodeid, reason_text, row_ids,
    spec_id_lists, spec_ids, specs_of, warning_text, warning_words, InfoView, ReasonView, SpecView,
};
use crate::python_discovery::decorators::{
    filled, final_id, part_texts, positional, PartView,
};
use crate::strings::{
    all_digits, digits_value, has_part, hex_digit, hex_text, is_digit, joined,
    lemma_digits_of_number, lemma_first_place_is_first, lemma_joined_is_split_back,
    lemma_numbers_are_told_apart, lemma_pieces_hold_no_separator, lemma_pieces_nonempty, nat_text,
    pieces, stands_at,
};
use vstd::arithmetic::div_mod::lemma_fundamental_div_mod_converse;
use vstd::prelude::*;

verus! {

// ---------------------------------------------------------------------------------------------
// Repeated IDs
// ---------------------------------------------------------------------------------------------
/// The ID stands at no earlier place.
pub open spec fn is_first(ids: Seq<Seq<char>>, i: int) -> bool {
    forall|j: int| 0 <= j < i ==> #[trigger] ids[j] != ids[i]
}

proof fn lemma_occurrences_grow(ids: Seq<Seq<char>>, id: Seq<char>, m: int, n: int)
    requires
        0 <= m <= n <= ids.len(),
    ensures
        occurrences(ids.take(m), id) <= occurrences(ids.take(n), id),
    decreases n - m,
{
    if m < n {
        lemma_occurrences_grow(ids, id, m, n - 1);
        assert(ids.take(n).drop_last() =~= ids.take(n - 1));
    }
}

proof fn lemma_no_occurrence(ids: Seq<Seq<char>>, id: Seq<char>)
    requires
        forall|j: int| 0 <= j < ids.len() ==> #[trigger] ids[j] != id,
    ensures
        occurrences(ids, id) == 0,
    decreases ids.len(),
{
    if ids.len() > 0 {
        let front = ids.drop_last();
        assert forall|j: int| 0 <= j < front.len() implies #[trigger] front[j] != id by {
            assert(front[j] == ids[j]);
        }
        lemma_no_occurrence(front, id);
        assert(ids[ids.len() - 1] != id);
    }
}

/// The first of equal IDs is kept as it is.
pub proof fn lemma_first_is_kept(ids: Seq<Seq<char>>, i: int)
    requires
        0 <= i < ids.len(),
        is_first(ids, i),
    ensures
        deduplicated(ids)[i] == ids[i],
{
    assert forall|j: int| 0 <= j < ids.take(i).len() implies #[trigger] ids.take(i)[j] != ids[i] by {
        assert(ids.take(i)[j] == ids[j]);
    }
    lemma_no_occurrence(ids.take(i), ids[i]);
}

/// IDs that differ from one another are kept as they are.
pub proof fn lemma_distinct_are_kept(ids: Seq<Seq<char>>)
    requires
        ids.no_duplicates(),
    ensures
        deduplicated(ids) == ids,
{
    assert forall|i: int| 0 <= i < ids.len() implies #[trigger] deduplicated(ids)[i] == ids[i] by {
        assert forall|j: int| 0 <= j < i implies #[trigger] ids[j] != ids[i] by {
        }
        lemma_first_is_kept(ids, i);
    }
    assert(deduplicated(ids) =~= ids);
}

proof fn lemma_digits_hold_no_mark(n: nat, k: int)
    requires
        0 <= k < nat_text(n).len(),
    ensures
        nat_text(n)[k] != '_',
{
    lemma_digits_of_number(n);
    assert(is_digit(nat_text(n)[k]));
}

/// Marked IDs tell which ID was marked and how.
proof fn lemma_marks_are_told_apart(a: Seq<char>, m: nat, b: Seq<char>, n: nat)
    requires
        m > 0,
        n > 0,
        marked(a, m) == marked(b, n),
    ensures
        a == b,
        m == n,
{
    let x = a + seq!['_'] + nat_text(m);
    let y = b + seq!['_'] + nat_text(n);
    assert(x == y);
    assert(x.len() == a.len() + 1 + nat_text(m).len());
    assert(y.len() == b.len() + 1 + nat_text(n).len());
    if a.len() < b.len() {
        // The mark of `b` would stand among the digits of `m`.
        assert(y[b.len() as int] == '_');
        assert(x[b.len() as int] == nat_text(m)[b.len() - a.len() - 1]);
        lemma_digits_hold_no_mark(m, b.len() - a.len() - 1);
    } else if b.len() < a.len() {
        assert(x[a.len() as int] == '_');
        assert(y[a.len() as int] == nat_text(n)[a.len() - b.len() - 1]);
        lemma_digits_hold_no_mark(n, a.len() - b.len() - 1);
    } else {
        assert(x.take(a.len() as int) =~= a);
        assert(y.take(b.len() as int) =~= b);
        assert(x.skip((a.len() + 1) as int) =~= nat_text(m));
        assert(y.skip((b.len() + 1) as int) =~= nat_text(n));
        lemma_numbers_are_told_apart(m, n);
    }
}

/// Equal IDs become different ones.
pub proof fn lemma_repetitions_are_told_apart(ids: Seq<Seq<char>>, i: int, j: int)
    requires
        0 <= i < j < ids.len(),
        ids[i] == ids[j],
    ensures
        deduplicated(ids)[i] != deduplicated(ids)[j],
{
    let id = ids[i];
    let m = occurrences(ids.take(i), id);
    let n = occurrences(ids.take(j), id);
    lemma_occurrences_grow(ids, id, i + 1, j);
    assert(ids.take(i + 1).drop_last() =~= ids.take(i));
    assert(ids.take(i + 1).last() == id);
    assert(m < n);
    if m == 0 {
        assert(marked(id, n).len() > id.len());
    } else if marked(id, m) == marked(id, n) {
        lemma_marks_are_told_apart(id, m, id, n);
    }
}

/// No ID looks like another one with a mark.
pub open spec fn is_unmarked(ids: Seq<Seq<char>>) -> bool {
    forall|i: int, j: int, n: nat|
        #![trigger ids[i], marked(ids[j], n)]
        0 <= i < ids.len() && 0 <= j < ids.len() && n > 0 ==> ids[i] != marked(ids[j], n)
}

/// Where no ID looks like another one with a mark, all IDs become different ones.
pub proof fn lemma_all_are_told_apart(ids: Seq<Seq<char>>)
    requires
        is_unmarked(ids),
    ensures
        deduplicated(ids).no_duplicates(),
{
    let all = deduplicated(ids);
    assert forall|i: int, j: int| 0 <= i < j < all.len() implies #[trigger] all[i]
        != #[trigger] all[j] by {
        let m = occurrences(ids.take(i), ids[i]);
        let n = occurrences(ids.take(j), ids[j]);
        if ids[i] == ids[j] {
            lemma_repetitions_are_told_apart(ids, i, j);
        } else if m > 0 && n > 0 {
            if all[i] == all[j] {
                lemma_marks_are_told_apart(ids[i], m, ids[j], n);
            }
        } else if m > 0 {
            assert(ids[j] != marked(ids[i], m));
        } else if n > 0 {
            assert(ids[i] != marked(ids[j], n));
        }
    }
}

// ---------------------------------------------------------------------------------------------
// Stacked decorators
// ---------------------------------------------------------------------------------------------
/// The product of the lengths of the lists.
pub open spec fn ways(lists: Seq<Seq<Seq<char>>>) -> nat
    decreases lists.len(),
{
    if lists.len() == 0 {
        1
    } else {
        ways(lists.drop_last()) * lists.last().len()
    }
}

/// A choice of one place in each list.
pub open spec fn is_choice(lists: Seq<Seq<Seq<char>>>, choice: Seq<int>) -> bool {
    choice.len() == lists.len() && forall|i: int|
        0 <= i < choice.len() ==> 0 <= #[trigger] choice[i] < lists[i].len()
}

/// The items at the chosen places.
pub open spec fn picked(lists: Seq<Seq<Seq<char>>>, choice: Seq<int>) -> Seq<Seq<char>> {
    Seq::new(lists.len(), |i: int| lists[i][choice[i]])
}

/// The place of a choice among all choices, the last list varying fastest.
pub open spec fn rank(lists: Seq<Seq<Seq<char>>>, choice: Seq<int>) -> int
    decreases lists.len(),
{
    if lists.len() == 0 {
        0
    } else {
        rank(lists.drop_last(), choice.drop_last()) * lists.last().len() + choice.last()
    }
}

/// There are as many combinations as the product of the lengths.
pub proof fn lemma_combination_count(lists: Seq<Seq<Seq<char>>>)
    ensures
        combinations(lists).len() == ways(lists),
    decreases lists.len(),
{
    if lists.len() > 0 {
        lemma_combination_count(lists.drop_last());
    }
}

/// Each choice has its place among the combinations.
pub proof fn lemma_combination_at(lists: Seq<Seq<Seq<char>>>, choice: Seq<int>)
    requires
        is_choice(lists, choice),
    ensures
        0 <= rank(lists, choice) < combinations(lists).len(),
        combinations(lists)[rank(lists, choice)] == picked(lists, choice),
    decreases lists.len(),
{
    if lists.len() == 0 {
        assert(picked(lists, choice) =~= Seq::<Seq<char>>::empty());
    } else {
        let front = lists.drop_last();
        let chosen = choice.drop_last();
        assert forall|i: int| 0 <= i < chosen.len() implies 0 <= #[trigger] chosen[i]
            < front[i].len() by {
            assert(chosen[i] == choice[i]);
        }
        lemma_combination_at(front, chosen);
        let rows = combinations(front);
        let items = lists.last();
        let n = items.len() as int;
        let q = rank(front, chosen);
        let r = choice.last();
        assert(r == choice[choice.len() - 1]);
        assert(0 <= q * n && q * n + r < rows.len() * n) by (nonlinear_arith)
            requires
                0 <= q < rows.len(),
                0 <= r < n,
        ;
        lemma_fundamental_div_mod_converse(q * n + r, n, q, r);
        assert(combinations(lists)[q * n + r] == rows[q].push(items[r]));
        assert(picked(lists, choice) =~= picked(front, chosen).push(items[r]));
    }
}

/// Each combination is that of some choice.
pub proof fn lemma_combination_is_chosen(lists: Seq<Seq<Seq<char>>>, m: int) -> (choice: Seq<int>)
    requires
        0 <= m < combinations(lists).len(),
    ensures
        is_choice(lists, choice),
        rank(lists, choice) == m,
    decreases lists.len(),
{
    if lists.len() == 0 {
        Seq::<int>::empty()
    } else {
        let front = lists.drop_last();
        let rows = combinations(front);
        let n = lists.last().len() as int;
        assert(m < rows.len() * n);
        assert(n > 0) by (nonlinear_arith)
            requires
                0 <= m < rows.len() * n,
                n >= 0,
        ;
        let q = m / n;
        let r = m % n;
        vstd::arithmetic::div_mod::lemma_fundamental_div_mod(m, n);
        assert(0 <= q < rows.len()) by (nonlinear_arith)
            requires
                0 <= m < rows.len() * n,
                n > 0,
                m == n * q + r,
                0 <= r < n,
        ;
        let chosen = lemma_combination_is_chosen(front, q);
        let choice = chosen.push(r);
        assert(choice.drop_last() =~= chosen);
        assert forall|i: int| 0 <= i < choice.len() implies 0 <= #[trigger] choice[i]
            < lists[i].len() by {
            if i < chosen.len() {
                assert(choice[i] == chosen[i] && lists[i] == front[i]);
            }
        }
        assert(q * n == n * q) by (nonlinear_arith);
        choice
    }
}

/// The product of the numbers of cases.
pub open spec fn case_count(specs: Seq<SpecView>) -> nat
    decreases specs.len(),
{
    if specs.len() == 0 {
        1
    } else {
        spec_ids(specs[0]).len() * case_count(specs.drop_first())
    }
}

proof fn lemma_ways_of_specs(specs: Seq<SpecView>)
    ensures
        ways(spec_id_lists(specs)) == case_count(specs),
    decreases specs.len(),
{
    if specs.len() > 0 {
        lemma_ways_of_specs(specs.drop_first());
        let lists = spec_id_lists(specs);
        assert(lists.drop_last() =~= spec_id_lists(specs.drop_first()));
        assert(lists.last() == spec_ids(specs[0]));
        assert(ways(lists) == case_count(specs)) by (nonlinear_arith)
            requires
                ways(lists) == case_count(specs.drop_first()) * spec_ids(specs[0]).len(),
                case_count(specs) == spec_ids(specs[0]).len() * case_count(specs.drop_first()),
        ;
    }
}

/// Stacked decorators expand to the product of their numbers of cases.
pub proof fn lemma_expansion_count(specs: Seq<SpecView>)
    requires
        specs.len() > 0,
    ensures
        expanded_ids(specs).len() == case_count(specs),
{
    lemma_combination_count(spec_id_lists(specs));
    lemma_ways_of_specs(specs);
}

/// A single decorator gives its own IDs, in order, unless they repeat.
pub proof fn lemma_single_decorator(spec: SpecView)
    ensures
        row_ids(combinations(spec_id_lists(seq![spec]))) == spec_ids(spec),
        spec_ids(spec).no_duplicates() ==> expanded_ids(seq![spec]) == spec_ids(spec),
{
    let lists = spec_id_lists(seq![spec]);
    let ids = spec_ids(spec);
    let rows = combinations(lists);
    let none = seq![Seq::<Seq<char>>::empty()];
    assert(lists.drop_last() =~= Seq::<Seq<Seq<char>>>::empty());
    assert(combinations(lists.drop_last()) =~= none);
    assert(lists.last() == ids);
    assert(rows == each_with_each(none, ids));
    assert(none.len() == 1);
    assert(rows.len() == ids.len()) by {
        assert(none.len() * ids.len() == ids.len()) by (nonlinear_arith)
            requires
                none.len() == 1,
        ;
    }
    assert forall|m: int| 0 <= m < ids.len() implies #[trigger] row_ids(rows)[m] == ids[m] by {
        lemma_fundamental_div_mod_converse(m, ids.len() as int, 0, m);
        assert(rows[m] =~= seq![ids[m]]);
        let row = rows[m];
        reveal_with_fuel(joined, 2);
        assert(joined(row, "-"@) =~= ids[m]);
    }
    assert(row_ids(rows) =~= ids);
    if ids.no_duplicates() {
        lemma_distinct_are_kept(ids);
    }
}

/// Of two decorators, the inner one's part comes first in an ID, and the outer one's varies
/// fastest. A class's decorator is outside those of its methods.
pub proof fn lemma_outer_varies_fastest(outer: SpecView, inner: SpecView, q: int, r: int)
    requires
        0 <= q < spec_ids(inner).len(),
        0 <= r < spec_ids(outer).len(),
    ensures
        ({
            let ids = row_ids(combinations(spec_id_lists(seq![outer, inner])));
            let at = q * spec_ids(outer).len() + r;
            &&& 0 <= at < ids.len()
            &&& ids[at] == spec_ids(inner)[q] + "-"@ + spec_ids(outer)[r]
        }),
{
    let lists = spec_id_lists(seq![outer, inner]);
    let choice = seq![q, r];
    let row = seq![spec_ids(inner)[q], spec_ids(outer)[r]];
    assert(lists =~= seq![spec_ids(inner), spec_ids(outer)]);
    assert(is_choice(lists, choice));
    lemma_combination_at(lists, choice);
    assert(choice.drop_last() =~= seq![q]);
    assert(lists.drop_last() =~= seq![spec_ids(inner)]);
    assert(seq![q].drop_last() =~= Seq::<int>::empty());
    assert(seq![spec_ids(inner)].drop_last() =~= Seq::<Seq<Seq<char>>>::empty());
    reveal_with_fuel(rank, 3);
    assert(rank(seq![spec_ids(inner)], seq![q]) == q);
    assert(rank(lists, choice) == q * spec_ids(outer).len() + r);
    assert(picked(lists, choice) =~= row);
    reveal_with_fuel(joined, 3);
    assert(row.drop_last() =~= seq![spec_ids(inner)[q]]);
    assert(joined(row, "-"@) =~= spec_ids(inner)[q] + "-"@ + spec_ids(outer)[r]);
}

/// A method without decorators has the cases of its class, and a class without decorators leaves a
/// method its own.
pub proof fn lemma_undecorated_is_neutral(info: InfoView)
    ensures
        combined_expansion(info, InfoView::NotDecorated) == combined_expansion(
            InfoView::NotDecorated,
            info,
        ),
{
    let none = Seq::<SpecView>::empty();
    assert(specs_of(info) + none =~= none + specs_of(info));
}

/// Whatever else is known, a decorator that cannot be expanded leaves the test unexpanded.
pub proof fn lemma_obstacle_prevails(class_info: InfoView, method_info: InfoView)
    requires
        class_info is CannotExpand || method_info is CannotExpand,
    ensures
        combined_expansion(class_info, method_info) is CannotExpand,
{
}

// ---------------------------------------------------------------------------------------------
// Escaped texts
// ---------------------------------------------------------------------------------------------
/// The character is in ASCII and is no control character.
pub open spec fn is_printable(c: char) -> bool {
    ' ' <= c <= '~'
}

/// All characters are in ASCII and none is a control character.
pub open spec fn all_printable(s: Seq<char>) -> bool {
    forall|i: int| 0 <= i < s.len() ==> is_printable(#[trigger] s[i])
}

proof fn lemma_hex_is_printable(n: nat, width: nat)
    ensures
        all_printable(hex_text(n, width)),
    decreases width,
{
    if width > 0 {
        let front = hex_text(n / 16, (width - 1) as nat);
        lemma_hex_is_printable(n / 16, (width - 1) as nat);
        let s = hex_text(n, width);
        assert(is_printable(hex_digit(n % 16)));
        assert forall|i: int| 0 <= i < s.len() implies is_printable(#[trigger] s[i]) by {
            if i < front.len() {
                assert(s[i] == front[i]);
            }
        }
    }
}

proof fn lemma_escaped_char_is_printable(c: char)
    ensures
        all_printable(escaped_char(c)),
{
    let code = c as u32;
    let s = escaped_char(c);
    lemma_hex_is_printable(code as nat, 2);
    lemma_hex_is_printable(code as nat, 4);
    lemma_hex_is_printable(code as nat, 8);
    if c == '\\' || c == '\n' || c == '\r' || c == '\t' {
        assert(all_printable(s));
    } else if code < 0x20 || code == 0x7F {
        assert forall|i: int| 0 <= i < s.len() implies is_printable(#[trigger] s[i]) by {
            if i >= 2 {
                assert(s[i] == hex_text(code as nat, 2)[i - 2]);
            }
        }
    } else if code < 0x80 {
        assert(is_printable(c));
    } else if code <= 0xFFFF {
        assert forall|i: int| 0 <= i < s.len() implies is_printable(#[trigger] s[i]) by {
            if i >= 2 {
                assert(s[i] == hex_text(code as nat, 4)[i - 2]);
            }
        }
    } else {
        assert forall|i: int| 0 <= i < s.len() implies is_printable(#[trigger] s[i]) by {
            if i >= 2 {
                assert(s[i] == hex_text(code as nat, 8)[i - 2]);
            }
        }
    }
}

/// An escaped text holds printable ASCII characters alone.
pub proof fn lemma_escaped_is_printable(s: Seq<char>)
    ensures
        all_printable(escaped(s)),
    decreases s.len(),
{
    if s.len() > 0 {
        let front = escaped(s.drop_last());
        let c = s.last();
        let back = escaped_char(c);
        lemma_escaped_is_printable(s.drop_last());
        lemma_escaped_char_is_printable(c);
        let all = escaped(s);
        assert forall|i: int| 0 <= i < all.len() implies is_printable(#[trigger] all[i]) by {
            if i < front.len() {
                assert(all[i] == front[i]);
            } else {
                assert(all[i] == back[i - front.len()]);
            }
        }
    }
}

/// A text of printable ASCII characters without backslashes is not changed.
pub proof fn lemma_plain_is_not_escaped(s: Seq<char>)
    requires
        all_printable(s),
        !s.contains('\\'),
    ensures
        escaped(s) == s,
    decreases s.len(),
{
    if s.len() > 0 {
        let front = s.drop_last();
        let c = s.last();
        assert(s[s.len() - 1] == c);
        assert forall|i: int| 0 <= i < front.len() implies is_printable(#[trigger] front[i]) by {
            assert(front[i] == s[i]);
        }
        assert(!front.contains('\\')) by {
            if front.contains('\\') {
                let k = choose|k: int| 0 <= k < front.len() && front[k] == '\\';
                assert(s[k] == '\\');
            }
        }
        lemma_plain_is_not_escaped(front);
        assert(s.contains(c));
        assert(escaped_char(c) =~= seq![c]);
        assert(escaped(s) =~= s);
    } else {
        assert(escaped(s) =~= s);
    }
}

/// Escaping goes character by character: a text is escaped by escaping its parts.
pub proof fn lemma_parts_are_escaped(a: Seq<char>, b: Seq<char>)
    ensures
        escaped(a + b) == escaped(a) + escaped(b),
    decreases b.len(),
{
    if b.len() == 0 {
        assert(a + b =~= a);
        assert(escaped(a) + escaped(b) =~= escaped(a));
    } else {
        let front = b.drop_last();
        lemma_parts_are_escaped(a, front);
        assert((a + b).drop_last() =~= a + front);
        assert((a + b).last() == b.last());
        assert(escaped(a) + (escaped(front) + escaped_char(b.last())) =~= escaped(a) + escaped(front)
            + escaped_char(b.last()));
    }
}

/// How many numbers have that many hexadecimal digits.
pub open spec fn hex_bound(width: nat) -> nat
    decreases width,
{
    if width == 0 {
        1
    } else {
        16 * hex_bound((width - 1) as nat)
    }
}

proof fn lemma_hex_digits_are_told_apart(m: nat, n: nat)
    requires
        m < 16,
        n < 16,
        hex_digit(m) == hex_digit(n),
    ensures
        m == n,
{
    assert(hex_digit(m) as u32 == if m < 10 {
        48 + m
    } else {
        87 + m
    });
    assert(hex_digit(n) as u32 == if n < 10 {
        48 + n
    } else {
        87 + n
    });
}

proof fn lemma_hex_is_told_apart(m: nat, n: nat, width: nat)
    requires
        m < hex_bound(width),
        n < hex_bound(width),
        hex_text(m, width) == hex_text(n, width),
    ensures
        m == n,
    decreases width,
{
    if width > 0 {
        let less = (width - 1) as nat;
        let a = hex_text(m, width);
        let b = hex_text(n, width);
        assert(a.drop_last() =~= hex_text(m / 16, less));
        assert(b.drop_last() =~= hex_text(n / 16, less));
        assert(a.last() == hex_digit(m % 16) && b.last() == hex_digit(n % 16));
        lemma_hex_digits_are_told_apart(m % 16, n % 16);
        lemma_hex_is_told_apart(m / 16, n / 16, less);
    }
}

proof fn lemma_hex_length(n: nat, width: nat)
    ensures
        hex_text(n, width).len() == width,
    decreases width,
{
    if width > 0 {
        lemma_hex_length(n / 16, (width - 1) as nat);
    }
}

/// An escaped character tells which character it is, whatever follows it.
proof fn lemma_escaped_chars_are_told_apart(c: char, x: Seq<char>, d: char, y: Seq<char>)
    requires
        escaped_char(c) + x == escaped_char(d) + y,
    ensures
        c == d,
{
    let a = escaped_char(c);
    let b = escaped_char(d);
    let m = c as u32 as nat;
    let n = d as u32 as nat;
    let all = a + x;
    reveal_with_fuel(hex_bound, 9);
    lemma_hex_length(m, 2);
    lemma_hex_length(m, 4);
    lemma_hex_length(m, 8);
    lemma_hex_length(n, 2);
    lemma_hex_length(n, 4);
    lemma_hex_length(n, 8);
    assert(all[0] == a[0]);
    assert((b + y)[0] == b[0]);
    if a.len() > 1 {
        assert(b.len() > 1);
        assert(all[1] == a[1]);
        assert((b + y)[1] == b[1]);
        if a.len() == b.len() && a.len() > 2 {
            let width = (a.len() - 2) as nat;
            assert(hex_text(m, width) =~= all.subrange(2, a.len() as int));
            assert(hex_text(n, width) =~= (b + y).subrange(2, a.len() as int));
            lemma_hex_is_told_apart(m, n, width);
        }
    }
}

/// Different texts stay different when they are escaped.
pub proof fn lemma_escaped_are_told_apart(a: Seq<char>, b: Seq<char>)
    requires
        escaped(a) == escaped(b),
    ensures
        a == b,
    decreases a.len(),
{
    if a.len() == 0 || b.len() == 0 {
        if a.len() > 0 {
            assert(escaped_char(a.last()).len() > 0);
            assert(escaped(a).len() > 0);
            assert(escaped(b).len() == 0);
        }
        if b.len() > 0 {
            assert(escaped_char(b.last()).len() > 0);
            assert(escaped(b).len() > 0);
            assert(escaped(a).len() == 0);
        }
        assert(a.len() == 0 && b.len() == 0);
        assert(a =~= b);
    } else {
        let x = a.drop_first();
        let y = b.drop_first();
        let none = Seq::<char>::empty();
        lemma_parts_are_escaped(seq![a[0]], x);
        lemma_parts_are_escaped(seq![b[0]], y);
        assert(a =~= seq![a[0]] + x);
        assert(b =~= seq![b[0]] + y);
        assert(seq![a[0]].drop_last() =~= none);
        assert(seq![b[0]].drop_last() =~= none);
        assert(escaped(none) == none);
        assert(escaped(seq![a[0]]) =~= escaped_char(a[0]));
        assert(escaped(seq![b[0]]) =~= escaped_char(b[0]));
        lemma_escaped_chars_are_told_apart(a[0], escaped(x), b[0], escaped(y));
        let n = escaped_char(a[0]).len() as int;
        assert(escaped(a).skip(n) =~= escaped(x));
        assert(escaped(b).skip(n) =~= escaped(y));
        lemma_escaped_are_told_apart(x, y);
    }
}

// ---------------------------------------------------------------------------------------------
// Placeholders
// ---------------------------------------------------------------------------------------------
/// No argument's name holds a dash.
pub open spec fn are_dashless(argnames: Seq<Seq<char>>) -> bool {
    forall|i: int| 0 <= i < argnames.len() ==> !(#[trigger] argnames[i]).contains('-')
}

proof fn lemma_positional_is_dashless(argnames: Seq<Seq<char>>, position: int, case: nat)
    requires
        are_dashless(argnames),
    ensures
        positional(argnames, position, case).len() > 0,
        !positional(argnames, position, case).contains('-'),
{
    let id = positional(argnames, position, case);
    let digits = nat_text(case);
    let name = if 0 <= position < argnames.len() {
        argnames[position]
    } else {
        "arg"@
    };
    reveal_strlit("arg");
    assert("arg"@ =~= seq!['a', 'r', 'g']);
    lemma_digits_of_number(case);
    if id.contains('-') {
        let k = choose|k: int| 0 <= k < id.len() && id[k] == '-';
        if k < name.len() {
            assert(name[k] == '-');
            assert(name.contains('-'));
        } else {
            assert(is_digit(digits[k - name.len()]));
        }
    }
}

/// Filling the placeholders leaves as many segments as there were, none of them empty; those that
/// were not empty are left as they are.
pub proof fn lemma_segments_are_filled(id: Seq<char>, argnames: Seq<Seq<char>>, case: nat)
    requires
        are_dashless(argnames),
    ensures
        ({
            let before = pieces(id, '-');
            let after = pieces(filled(id, argnames, case), '-');
            &&& after.len() == before.len()
            &&& forall|i: int|
                0 <= i < after.len() ==> {
                    &&& (#[trigger] after[i]).len() > 0
                    &&& before[i].len() == 0 ==> after[i] == positional(argnames, i, case)
                    &&& before[i].len() > 0 ==> after[i] == before[i]
                }
        }),
{
    let before = pieces(id, '-');
    let after = Seq::new(
        before.len(),
        |i: int|
            if before[i].len() == 0 {
                positional(argnames, i, case)
            } else {
                before[i]
            },
    );
    lemma_pieces_nonempty(id, '-');
    lemma_pieces_hold_no_separator(id, '-');
    assert forall|i: int| 0 <= i < after.len() implies !(#[trigger] after[i]).contains('-')
        && after[i].len() > 0 by {
        lemma_positional_is_dashless(argnames, i, case);
        assert(!before[i].contains('-'));
    }
    reveal_strlit("-");
    assert("-"@ =~= seq!['-']);
    lemma_joined_is_split_back(after, '-');
}

/// Filling the placeholders twice is filling them once.
pub proof fn lemma_filling_is_idempotent(id: Seq<char>, argnames: Seq<Seq<char>>, case: nat)
    requires
        are_dashless(argnames),
    ensures
        filled(filled(id, argnames, case), argnames, case) == filled(id, argnames, case),
{
    let once = filled(id, argnames, case);
    let before = pieces(id, '-');
    let after = pieces(once, '-');
    lemma_segments_are_filled(id, argnames, case);
    let first = Seq::new(
        before.len(),
        |i: int|
            if before[i].len() == 0 {
                positional(argnames, i, case)
            } else {
                before[i]
            },
    );
    let second = Seq::new(
        after.len(),
        |i: int|
            if after[i].len() == 0 {
                positional(argnames, i, case)
            } else {
                after[i]
            },
    );
    assert forall|i: int| 0 <= i < after.len() implies first[i] == second[i] by {
        assert(after[i].len() > 0);
    }
    assert(first =~= second);
}

/// An ID without opaque parts is made of the parts as they are.
pub proof fn lemma_known_parts_stay(parts: Seq<PartView>, argnames: Seq<Seq<char>>, case: nat)
    requires
        forall|i: int| 0 <= i < parts.len() ==> !(#[trigger] parts[i]).is_opaque,
    ensures
        final_id(parts, argnames, case) == joined(part_texts(parts), "-"@),
{
    assert(part_texts(parts) =~= Seq::new(
        parts.len(),
        |i: int|
            if parts[i].is_opaque {
                positional(argnames, i, case)
            } else {
                parts[i].text
            },
    ));
}

/// Where just the opaque parts of an ID are empty, and none holds a dash, filling the placeholders
/// of the joined parts gives the ID that the parts give.
pub proof fn lemma_filling_is_finalizing(
    parts: Seq<PartView>,
    argnames: Seq<Seq<char>>,
    case: nat,
)
    requires
        parts.len() > 0,
        forall|i: int| 0 <= i < parts.len() ==> !(#[trigger] parts[i]).text.contains('-'),
        forall|i: int|
            0 <= i < parts.len() ==> (#[trigger] parts[i]).is_opaque == (parts[i].text.len() == 0),
    ensures
        filled(joined(part_texts(parts), "-"@), argnames, case) == final_id(parts, argnames, case),
{
    let all = part_texts(parts);
    assert forall|i: int| 0 <= i < all.len() implies !(#[trigger] all[i]).contains('-') by {
        assert(all[i] == parts[i].text);
    }
    reveal_strlit("-");
    assert("-"@ =~= seq!['-']);
    lemma_joined_is_split_back(all, '-');
    let by_text = Seq::new(
        all.len(),
        |i: int|
            if all[i].len() == 0 {
                positional(argnames, i, case)
            } else {
                all[i]
            },
    );
    let by_part = Seq::new(
        parts.len(),
        |i: int|
            if parts[i].is_opaque {
                positional(argnames, i, case)
            } else {
                parts[i].text
            },
    );
    assert forall|i: int| 0 <= i < all.len() implies by_text[i] == by_part[i] by {
        assert(all[i] == parts[i].text);
    }
    assert(by_text =~= by_part);
}

// ---------------------------------------------------------------------------------------------
// Warnings
// ---------------------------------------------------------------------------------------------
/// The node ID that a warning is about is read back from it, where it holds no quote.
pub proof fn lemma_nodeid_is_read_back(nodeid: Seq<char>, reason: ReasonView)
    requires
        !nodeid.contains('\''),
    ensures
        quoted_nodeid(warning_text(nodeid, reason)) == Some(nodeid),
{
    let lead = "warning: Cannot statically expand test cases for '"@;
    let words = warning_words();
    let tail = "': "@;
    let message = warning_text(nodeid, reason);
    reveal_strlit("warning: Cannot statically expand test cases for '");
    reveal_strlit("Cannot statically expand test cases for '");
    reveal_strlit("': ");
    assert(lead.len() == 50 && words.len() == 41 && tail.len() == 3);
    assert(lead.subrange(9, 50) =~= words);
    assert(message.subrange(9, 50) =~= words) by {
        assert(message.take(50) =~= lead);
        assert(message.subrange(9, 50) =~= message.take(50).subrange(9, 50));
    }
    assert(stands_at(message, words, 9));
    assert forall|j: int| 0 <= j < 9 implies !stands_at(message, words, j) by {
        assert(message[j] == lead[j]);
        assert(words[0] == 'C');
        assert(lead[j] != 'C');
        if stands_at(message, words, j) {
            assert(message.subrange(j, j + words.len())[0] == message[j]);
        }
    }
    lemma_first_place_is_first(message, words, 0, 9);
    let rest = message.skip(50);
    assert(rest =~= nodeid + tail + reason_text(reason));
    let quote = seq!['\''];
    let n = nodeid.len() as int;
    assert(rest[n] == tail[0]);
    assert(rest.subrange(n, n + 1) =~= quote);
    assert(stands_at(rest, quote, n));
    assert forall|j: int| 0 <= j < n implies !stands_at(rest, quote, j) by {
        assert(rest[j] == nodeid[j]);
        assert(nodeid.contains(nodeid[j]));
        if stands_at(rest, quote, j) {
            assert(rest.subrange(j, j + 1)[0] == rest[j]);
        }
    }
    lemma_first_place_is_first(rest, quote, 0, n);
    assert(rest.take(n) =~= nodeid);
}

/// What is said of a test that cannot be expanded holds what stands in the way: the name of the
/// variable or of the function, or the expression in words.
pub proof fn lemma_reasons_are_told(what: Seq<char>, nodeid: Seq<char>, reason: ReasonView)
    ensures
        has_part(reason_text(ReasonView::VariableReference(what)), what),
        has_part(reason_text(ReasonView::FunctionCall(what)), what),
        has_part(reason_text(ReasonView::UnsupportedExpression(what)), what),
        reason_text(reason).is_suffix_of(warning_text(nodeid, reason)),
        has_part(warning_text(nodeid, reason), nodeid),
        nodeid.is_suffix_of(marker_text(nodeid)),
{
    let quote = seq!['\''];
    lemma_part_of_sum("argvalues references variable '"@, what, quote);
    lemma_part_of_sum("argvalues contains function call '"@, what, quote);
    let lead = "argvalues contains unsupported expression: "@;
    lemma_part_of_sum(lead, what, seq![]);
    assert(lead + what + Seq::<char>::empty() =~= lead + what);
    let words = reason_text(reason);
    let all = warning_text(nodeid, reason);
    let start = "warning: Cannot statically expand test cases for '"@;
    assert(words =~= all.subrange(all.len() - words.len(), all.len() as int));
    assert(all =~= start + nodeid + ("': "@ + words));
    lemma_part_of_sum(start, nodeid, "': "@ + words);
    let marker = marker_text(nodeid);
    assert(nodeid =~= marker.subrange(marker.len() - nodeid.len(), marker.len() as int));
}

// ---------------------------------------------------------------------------------------------
// Marks and escapes
// ---------------------------------------------------------------------------------------------
/// How often the ID stands before the place `n`.
pub open spec fn times_before(ids: Seq<Seq<char>>, id: Seq<char>, n: int) -> nat
    decreases n,
{
    if n <= 0 {
        0
    } else {
        times_before(ids, id, n - 1) + if ids[n - 1] == id {
            1nat
        } else {
            0nat
        }
    }
}

proof fn lemma_times_before(ids: Seq<Seq<char>>, id: Seq<char>, n: int)
    requires
        0 <= n <= ids.len(),
    ensures
        occurrences(ids.take(n), id) == times_before(ids, id, n),
    decreases n,
{
    if n > 0 {
        lemma_times_before(ids, id, n - 1);
        assert(ids.take(n).drop_last() =~= ids.take(n - 1));
        assert(ids.take(n).last() == ids[n - 1]);
    }
}

/// An ID that stands there for the first time is kept; a repeated one is followed by an underscore
/// and the number of times that it stands before.
pub proof fn lemma_repetitions_are_numbered(ids: Seq<Seq<char>>, i: int)
    requires
        0 <= i < ids.len(),
    ensures
        ({
            let id = ids[i];
            let n = times_before(ids, id, i);
            let marked_id = deduplicated(ids)[i];
            &&& n == 0 ==> marked_id == id
            &&& n > 0 ==> {
                &&& id.push('_').is_prefix_of(marked_id)
                &&& all_digits(marked_id.skip(id.len() as int + 1))
                &&& digits_value(marked_id.skip(id.len() as int + 1)) == n
            }
        }),
{
    let id = ids[i];
    let n = times_before(ids, id, i);
    lemma_times_before(ids, id, i);
    lemma_digits_of_number(n);
    if n > 0 {
        let all = deduplicated(ids)[i];
        assert(all == id + seq!['_'] + nat_text(n));
        assert(id.push('_') =~= all.take(id.len() as int + 1));
        assert(all.skip(id.len() as int + 1) =~= nat_text(n));
    }
}

/// The number that a hexadecimal digit stands for.
pub open spec fn hex_value(c: char) -> int {
    if '0' <= c <= '9' {
        c as u32 - '0' as u32
    } else {
        c as u32 - 'a' as u32 + 10
    }
}

/// The number that a text of hexadecimal digits stands for.
pub open spec fn hex_number(s: Seq<char>) -> int
    decreases s.len(),
{
    if s.len() == 0 {
        0
    } else {
        16 * hex_number(s.drop_last()) + hex_value(s.last())
    }
}

proof fn lemma_hex_is_read_back(n: nat, width: nat)
    requires
        n < hex_bound(width),
    ensures
        hex_number(hex_text(n, width)) == n,
    decreases width,
{
    if width > 0 {
        let s = hex_text(n, width);
        let less = (width - 1) as nat;
        lemma_hex_is_read_back(n / 16, less);
        assert(s.drop_last() =~= hex_text(n / 16, less));
        let d = n % 16;
        assert(s.last() == hex_digit(d));
        assert(hex_value(hex_digit(d)) == d);
    }
}

/// Backslashes, line breaks and tabs have escapes of their own, as in Python; any other character
/// that is no printable ASCII character is escaped by the hexadecimal digits of its code: two
/// behind `x`, four behind `u`, eight behind `U`.
pub proof fn lemma_escapes(c: char)
    ensures
        escaped(seq!['\\']) == seq!['\\', '\\'],
        escaped(seq!['\n']) == seq!['\\', 'n'],
        escaped(seq!['\r']) == seq!['\\', 'r'],
        escaped(seq!['\t']) == seq!['\\', 't'],
        is_printable(c) && c != '\\' ==> escaped(seq![c]) == seq![c],
        !is_printable(c) && c != '\n' && c != '\r' && c != '\t' ==> {
            let s = escaped(seq![c]);
            &&& s[0] == '\\'
            &&& hex_number(s.skip(2)) == c as u32
            &&& c as u32 <= 0x7F ==> s.len() == 4 && s[1] == 'x'
            &&& 0x80 <= c as u32 <= 0xFFFF ==> s.len() == 6 && s[1] == 'u'
            &&& 0x10000 <= c as u32 ==> s.len() == 10 && s[1] == 'U'
        },
{
    lemma_escaped_one('\\');
    lemma_escaped_one('\n');
    lemma_escaped_one('\r');
    lemma_escaped_one('\t');
    lemma_escaped_one(c);
    let code = c as u32 as nat;
    reveal_with_fuel(hex_bound, 9);
    lemma_hex_length(code, 2);
    lemma_hex_length(code, 4);
    lemma_hex_length(code, 8);
    let s = escaped_char(c);
    if s.len() > 2 {
        let width = (s.len() - 2) as nat;
        assert(s.skip(2) =~= hex_text(code, width));
        lemma_hex_is_read_back(code, width);
    }
}

proof fn lemma_escaped_one(c: char)
    ensures
        escaped(seq![c]) == escaped_char(c),
{
    let none = Seq::<char>::empty();
    assert(seq![c].drop_last() =~= none);
    assert(escaped(none) == none);
    assert(none + escaped_char(c) =~= escaped_char(c));
    assert(seq![c].last() == c);
}

/// A method of a decorated class has as its outer decorators those of the class: its cases are
/// those of the decorators of the class followed by its own.
pub proof fn lemma_class_decorators_are_outside(outer: SpecView, inner: SpecView, q: int, r: int)
    requires
        0 <= q < spec_ids(inner).len(),
        0 <= r < spec_ids(outer).len(),
        row_ids(combinations(spec_id_lists(seq![outer, inner]))).no_duplicates(),
    ensures
        ({
            let cases = combined_expansion(
                InfoView::Specs(seq![outer]),
                InfoView::Specs(seq![inner]),
            );
            let at = q * spec_ids(outer).len() + r;
            &&& cases is Expanded
            &&& 0 <= at < cases->Expanded_0.len()
            &&& cases->Expanded_0[at] == spec_ids(inner)[q] + "-"@ + spec_ids(outer)[r]
        }),
{
    let specs = seq![outer] + seq![inner];
    assert(specs =~= seq![outer, inner]);
    lemma_outer_varies_fastest(outer, inner, q, r);
    lemma_distinct_are_kept(row_ids(combinations(spec_id_lists(specs))));
}

} // verus!
