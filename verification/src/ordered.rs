//! Sorted lists: of texts without repetitions, and of paths.

use crate::strings::{chars_of, copy, same, text_lists, texts};
use vstd::prelude::*;

verus! {

/// `a` comes before `b` in the order of dictionaries, characters being ordered by their code
/// points.
pub open spec fn precedes(a: Seq<char>, b: Seq<char>) -> bool
    decreases a.len(),
{
    if b.len() == 0 {
        false
    } else if a.len() == 0 {
        true
    } else if a[0] != b[0] {
        a[0] < b[0]
    } else {
        precedes(a.drop_first(), b.drop_first())
    }
}

/// Each text comes before all that follow it.
pub open spec fn is_sorted(list: Seq<Seq<char>>) -> bool {
    forall|i: int, j: int| 0 <= i < j < list.len() ==> precedes(#[trigger] list[i], #[trigger] list[j])
}

proof fn lemma_irreflexive(a: Seq<char>)
    ensures
        !precedes(a, a),
    decreases a.len(),
{
    if a.len() > 0 {
        lemma_irreflexive(a.drop_first());
    }
}

proof fn lemma_transitive(a: Seq<char>, b: Seq<char>, c: Seq<char>)
    requires
        precedes(a, b),
        precedes(b, c),
    ensures
        precedes(a, c),
    decreases a.len(),
{
    if a.len() > 0 && b.len() > 0 && c.len() > 0 {
        if a[0] == b[0] && b[0] == c[0] {
            lemma_transitive(a.drop_first(), b.drop_first(), c.drop_first());
        }
    }
}

proof fn lemma_total(a: Seq<char>, b: Seq<char>)
    ensures
        a == b || precedes(a, b) || precedes(b, a),
    decreases a.len(),
{
    if a.len() > 0 && b.len() > 0 {
        if a[0] == b[0] {
            lemma_total(a.drop_first(), b.drop_first());
            if a.drop_first() == b.drop_first() {
                assert(a =~= seq![a[0]] + a.drop_first());
                assert(b =~= seq![b[0]] + b.drop_first());
                assert(a =~= b);
            }
        }
    } else {
        assert(a.len() == 0 && b.len() == 0 ==> a =~= b);
    }
}

/// Whether one text comes before another.
pub fn comes_before(a: &str, b: &str) -> (r: bool)
    ensures
        r == precedes(a@, b@),
{
    let a_chars = chars_of(a);
    let b_chars = chars_of(b);
    let mut i: usize = 0;
    assert(a@.skip(0) =~= a@);
    assert(b@.skip(0) =~= b@);
    while i < a_chars.len() && i < b_chars.len()
        invariant
            a_chars@ == a@,
            b_chars@ == b@,
            i <= a@.len(),
            i <= b@.len(),
            precedes(a@, b@) == precedes(a@.skip(i as int), b@.skip(i as int)),
        decreases a@.len() - i,
    {
        if a_chars[i] != b_chars[i] {
            return a_chars[i] < b_chars[i];
        }
        assert(a@.skip(i as int).drop_first() =~= a@.skip(i + 1));
        assert(b@.skip(i as int).drop_first() =~= b@.skip(i + 1));
        i = i + 1;
    }
    i < b_chars.len()
}

/// Puts a text into a sorted list, unless it is there.
pub fn insert_text(list: &mut Vec<String>, s: &str)
    requires
        is_sorted(texts(old(list)@)),
    ensures
        is_sorted(texts(final(list)@)),
        texts(final(list)@).to_set() == texts(old(list)@).to_set().insert(s@),
{
    let ghost before = texts(list@);
    let mut at: usize = 0;
    while at < list.len() && comes_before(list[at].as_str(), s)
        invariant
            at <= list@.len(),
            before == texts(list@),
            forall|j: int| 0 <= j < at ==> precedes(#[trigger] before[j], s@),
        decreases list@.len() - at,
    {
        assert(before[at as int] == list@[at as int]@);
        at = at + 1;
    }
    if at < list.len() && same(list[at].as_str(), s) {
        proof {
            assert(before[at as int] == s@);
            assert(before.to_set().insert(s@) =~= before.to_set());
        }
        return;
    }
    let item = copy(s);
    list.insert(at, item);
    proof {
        let after = texts(list@);
        assert(after =~= before.insert(at as int, s@));
        assert forall|i: int, j: int| 0 <= i < j < after.len() implies precedes(
            #[trigger] after[i],
            #[trigger] after[j],
        ) by {
            if i < at && j == at {
                assert(after[i] == before[i]);
            } else if i < at && j > at {
                assert(after[i] == before[i] && after[j] == before[j - 1]);
            } else if i == at {
                // Behind the new text stand those that do not come before it.
                assert(after[j] == before[j - 1]);
                lemma_total(s@, before[at as int]);
                if j - 1 > at {
                    lemma_transitive(s@, before[at as int], before[j - 1]);
                }
            } else if i > at {
                assert(after[i] == before[i - 1] && after[j] == before[j - 1]);
            } else {
                assert(after[i] == before[i] && after[j] == before[j]);
            }
        }
        assert forall|x: Seq<char>| after.to_set().contains(x) == before.to_set().insert(
            s@,
        ).contains(x) by {
            if after.contains(x) {
                let k = choose|k: int| 0 <= k < after.len() && after[k] == x;
                if k < at {
                    assert(before[k] == x);
                } else if k > at {
                    assert(before[k - 1] == x);
                }
            }
            if before.contains(x) {
                let k = choose|k: int| 0 <= k < before.len() && before[k] == x;
                if k < at {
                    assert(after[k] == x);
                } else {
                    assert(after[k + 1] == x);
                }
            }
            assert(after[at as int] == s@);
        }
        assert(after.to_set() =~= before.to_set().insert(s@));
    }
}

/// Two sorted lists of the same texts are the same list.
pub proof fn lemma_sorted_is_unique(a: Seq<Seq<char>>, b: Seq<Seq<char>>)
    requires
        is_sorted(a),
        is_sorted(b),
        a.to_set() == b.to_set(),
    ensures
        a == b,
    decreases a.len(),
{
    assert forall|x: Seq<char>| a.contains(x) == b.contains(x) by {
        assert(a.to_set().contains(x) == a.contains(x));
        assert(b.to_set().contains(x) == b.contains(x));
    }
    if a.len() == 0 {
        if b.len() > 0 {
            assert(b.contains(b[0]));
        }
        assert(a =~= b);
    } else {
        assert(a.contains(a.last()));
        let k = choose|k: int| 0 <= k < b.len() && b[k] == a.last();
        assert(b.contains(b.last()));
        let m = choose|m: int| 0 <= m < a.len() && a[m] == b.last();
        if k < b.len() - 1 {
            if m < a.len() - 1 {
                lemma_transitive(a.last(), b.last(), a.last());
            }
            lemma_irreflexive(a.last());
        }
        let fa = a.drop_last();
        let fb = b.drop_last();
        assert forall|x: Seq<char>| fa.contains(x) == fb.contains(x) by {
            if fa.contains(x) {
                let i = choose|i: int| 0 <= i < fa.len() && fa[i] == x;
                assert(a[i] == x);
                assert(precedes(a[i], a[a.len() - 1]));
                lemma_irreflexive(x);
                assert(a.contains(x));
                let j = choose|j: int| 0 <= j < b.len() && b[j] == x;
                assert(j < b.len() - 1);
                assert(fb[j] == x);
            }
            if fb.contains(x) {
                let i = choose|i: int| 0 <= i < fb.len() && fb[i] == x;
                assert(b[i] == x);
                assert(precedes(b[i], b[b.len() - 1]));
                lemma_irreflexive(x);
                assert(b.contains(x));
                let j = choose|j: int| 0 <= j < a.len() && a[j] == x;
                assert(j < a.len() - 1);
                assert(fa[j] == x);
            }
        }
        assert(fa.to_set() =~= fb.to_set());
        lemma_sorted_is_unique(fa, fb);
        assert(a =~= fa.push(a.last()));
        assert(b =~= fb.push(b.last()));
    }
}

// ---------------------------------------------------------------------------------------------
// Paths
// ---------------------------------------------------------------------------------------------
/// A path comes before another, both given by their names: the first names that differ decide, and
/// a path comes before those below it.
pub open spec fn path_precedes(a: Seq<Seq<char>>, b: Seq<Seq<char>>) -> bool
    decreases a.len(),
{
    if b.len() == 0 {
        false
    } else if a.len() == 0 {
        true
    } else if a[0] != b[0] {
        precedes(a[0], b[0])
    } else {
        path_precedes(a.drop_first(), b.drop_first())
    }
}

/// No path comes before one that it follows.
pub open spec fn paths_sorted(list: Seq<Seq<Seq<char>>>) -> bool {
    forall|i: int, j: int|
        0 <= i < j < list.len() ==> !path_precedes(#[trigger] list[j], #[trigger] list[i])
}

proof fn lemma_path_irreflexive(a: Seq<Seq<char>>)
    ensures
        !path_precedes(a, a),
    decreases a.len(),
{
    if a.len() > 0 {
        lemma_path_irreflexive(a.drop_first());
    }
}

proof fn lemma_path_transitive(a: Seq<Seq<char>>, b: Seq<Seq<char>>, c: Seq<Seq<char>>)
    requires
        path_precedes(a, b),
        path_precedes(b, c),
    ensures
        path_precedes(a, c),
    decreases a.len(),
{
    if a.len() > 0 && b.len() > 0 && c.len() > 0 {
        if a[0] == b[0] && b[0] == c[0] {
            lemma_path_transitive(a.drop_first(), b.drop_first(), c.drop_first());
        } else if a[0] != b[0] && b[0] != c[0] {
            lemma_transitive(a[0], b[0], c[0]);
            lemma_irreflexive(a[0]);
        }
    }
}

proof fn lemma_path_total(a: Seq<Seq<char>>, b: Seq<Seq<char>>)
    ensures
        a == b || path_precedes(a, b) || path_precedes(b, a),
    decreases a.len(),
{
    if a.len() > 0 && b.len() > 0 {
        if a[0] == b[0] {
            lemma_path_total(a.drop_first(), b.drop_first());
            if a.drop_first() == b.drop_first() {
                assert(a =~= seq![a[0]] + a.drop_first());
                assert(b =~= seq![b[0]] + b.drop_first());
                assert(a =~= b);
            }
        } else {
            lemma_total(a[0], b[0]);
        }
    } else {
        assert(a.len() == 0 && b.len() == 0 ==> a =~= b);
    }
}

/// Whether one path comes before another.
pub fn path_before(a: &[String], b: &[String]) -> (r: bool)
    ensures
        r == path_precedes(texts(a@), texts(b@)),
{
    let ghost x = texts(a@);
    let ghost y = texts(b@);
    let mut i: usize = 0;
    assert(x.skip(0) =~= x);
    assert(y.skip(0) =~= y);
    while i < a.len() && i < b.len()
        invariant
            x == texts(a@),
            y == texts(b@),
            i <= a@.len(),
            i <= b@.len(),
            path_precedes(x, y) == path_precedes(x.skip(i as int), y.skip(i as int)),
        decreases a@.len() - i,
    {
        assert(x.skip(i as int)[0] == a@[i as int]@);
        assert(y.skip(i as int)[0] == b@[i as int]@);
        if !same(a[i].as_str(), b[i].as_str()) {
            return comes_before(a[i].as_str(), b[i].as_str());
        }
        assert(x.skip(i as int).drop_first() =~= x.skip(i + 1));
        assert(y.skip(i as int).drop_first() =~= y.skip(i + 1));
        i = i + 1;
    }
    i < b.len()
}

/// Puts a path into a sorted list.
pub fn insert_path(list: &mut Vec<Vec<String>>, path: Vec<String>)
    requires
        paths_sorted(text_lists(old(list)@)),
    ensures
        paths_sorted(text_lists(final(list)@)),
        text_lists(final(list)@).to_multiset() == text_lists(old(list)@).to_multiset().insert(
            texts(path@),
        ),
{
    broadcast use vstd::seq_lib::group_to_multiset_ensures;

    let ghost before = text_lists(list@);
    let ghost new = texts(path@);
    let mut at: usize = list.len();
    while at > 0 && path_before(path.as_slice(), list[at - 1].as_slice())
        invariant
            at <= list@.len(),
            before == text_lists(list@),
            new == texts(path@),
            forall|j: int| at <= j < before.len() ==> path_precedes(new, #[trigger] before[j]),
        decreases at,
    {
        assert(before[at - 1] == texts(list@[at - 1]@));
        at = at - 1;
    }
    list.insert(at, path);
    proof {
        let after = text_lists(list@);
        assert(after =~= before.insert(at as int, new));
        if at > 0 {
            assert(before[at - 1] == texts(list@[at - 1]@));
        }
        assert forall|i: int, j: int| 0 <= i < j < after.len() implies !path_precedes(
            #[trigger] after[j],
            #[trigger] after[i],
        ) by {
            if j < at {
                assert(after[i] == before[i] && after[j] == before[j]);
            } else if j == at {
                assert(after[i] == before[i]);
                if i < at - 1 && path_precedes(new, before[i]) {
                    lemma_path_total(before[i], before[at - 1]);
                    if path_precedes(before[i], before[at - 1]) {
                        lemma_path_transitive(new, before[i], before[at - 1]);
                    }
                }
            } else if i == at {
                assert(after[j] == before[j - 1]);
                if path_precedes(before[j - 1], new) {
                    lemma_path_transitive(new, before[j - 1], new);
                    lemma_path_irreflexive(new);
                }
            } else if i < at {
                assert(after[i] == before[i] && after[j] == before[j - 1]);
            } else {
                assert(after[i] == before[i - 1] && after[j] == before[j - 1]);
            }
        }
        lemma_insert_counts(before, at as int, new);
    }
}

proof fn lemma_insert_counts(list: Seq<Seq<Seq<char>>>, at: int, x: Seq<Seq<char>>)
    requires
        0 <= at <= list.len(),
    ensures
        list.insert(at, x).to_multiset() == list.to_multiset().insert(x),
{
    broadcast use vstd::seq_lib::group_to_multiset_ensures;

    let front = list.take(at);
    let back = list.skip(at);
    assert(list.insert(at, x) =~= front.push(x) + back);
    assert(list =~= front + back);
    vstd::seq_lib::lemma_multiset_commutative(front.push(x), back);
    vstd::seq_lib::lemma_multiset_commutative(front, back);
    assert(list.insert(at, x).to_multiset() =~= list.to_multiset().insert(x));
}

/// Two sorted lists of the same paths, each as often, are the same list.
pub proof fn lemma_sorted_paths_are_unique(a: Seq<Seq<Seq<char>>>, b: Seq<Seq<Seq<char>>>)
    requires
        paths_sorted(a),
        paths_sorted(b),
        a.to_multiset() == b.to_multiset(),
    ensures
        a == b,
    decreases a.len(),
{
    broadcast use vstd::seq_lib::group_to_multiset_ensures;

    assert(a.to_multiset().len() == a.len());
    assert(b.to_multiset().len() == b.len());
    if a.len() == 0 {
        assert(a =~= b);
    } else {
        assert(a.contains(a.last()));
        assert(b.contains(b.last()));
        assert(b.to_multiset().count(a.last()) > 0);
        assert(a.to_multiset().count(b.last()) > 0);
        let k = choose|k: int| 0 <= k < b.len() && b[k] == a.last();
        let m = choose|m: int| 0 <= m < a.len() && a[m] == b.last();
        lemma_path_total(a.last(), b.last());
        assert(a.last() == b.last());
        let fa = a.drop_last();
        let fb = b.drop_last();
        assert(a =~= fa.push(a.last()));
        assert(b =~= fb.push(b.last()));
        assert(fa.to_multiset() =~= a.to_multiset().remove(a.last()));
        assert(fb.to_multiset() =~= b.to_multiset().remove(b.last()));
        lemma_sorted_paths_are_unique(fa, fb);
    }
}

// ---------------------------------------------------------------------------------------------
// What the orders are
// ---------------------------------------------------------------------------------------------
/// The first characters that differ decide between two texts, and a text comes before those that
/// start with it.
pub proof fn lemma_order_of_texts(common: Seq<char>, a: Seq<char>, b: Seq<char>)
    ensures
        precedes(common + a, common + b) == precedes(a, b),
        a.len() > 0 && b.len() > 0 && a[0] < b[0] ==> precedes(a, b) && !precedes(b, a),
        a.len() > 0 ==> precedes(seq![], a) && !precedes(a, seq![]),
        !precedes(a, a),
    decreases common.len(),
{
    lemma_irreflexive(a);
    if common.len() > 0 {
        let less = common.drop_first();
        lemma_order_of_texts(less, a, b);
        assert((common + a).drop_first() =~= less + a);
        assert((common + b).drop_first() =~= less + b);
    } else {
        assert(common + a =~= a);
        assert(common + b =~= b);
    }
}

/// The first names that differ decide between two paths, and a path comes before those below it.
pub proof fn lemma_order_of_paths(
    common: Seq<Seq<char>>,
    a: Seq<Seq<char>>,
    b: Seq<Seq<char>>,
)
    ensures
        path_precedes(common + a, common + b) == path_precedes(a, b),
        a.len() > 0 && b.len() > 0 && precedes(a[0], b[0]) ==> path_precedes(a, b),
        a.len() > 0 ==> path_precedes(seq![], a) && !path_precedes(a, seq![]),
        !path_precedes(a, a),
    decreases common.len(),
{
    lemma_path_irreflexive(a);
    if a.len() > 0 && b.len() > 0 {
        lemma_irreflexive(a[0]);
    }
    if common.len() > 0 {
        let less = common.drop_first();
        lemma_order_of_paths(less, a, b);
        assert((common + a).drop_first() =~= less + a);
        assert((common + b).drop_first() =~= less + b);
    } else {
        assert(common + a =~= a);
        assert(common + b =~= b);
    }
}

} // verus!
