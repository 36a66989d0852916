//! Pattern matching utilities for test discovery.

use crate::strings::{chars_of, texts};
use vstd::prelude::*;

verus! {

/// `name` matches `pattern`: each `*` stands for some text, which may be empty, and every other
/// character for itself.
pub open spec fn pattern_accepts(pattern: Seq<char>, name: Seq<char>) -> bool
    decreases pattern.len(),
{
    if pattern.len() == 0 {
        name.len() == 0
    } else if pattern[0] == '*' {
        exists|k: int|
            0 <= k <= name.len() && pattern_accepts(pattern.skip(1), #[trigger] name.skip(k))
    } else {
        name.len() > 0 && name[0] == pattern[0] && pattern_accepts(pattern.skip(1), name.skip(1))
    }
}

/// Some pattern of the list accepts `name`.
pub open spec fn any_accepts(patterns: Seq<Seq<char>>, name: Seq<char>) -> bool {
    exists|i: int| 0 <= i < patterns.len() && pattern_accepts(#[trigger] patterns[i], name)
}

/// Check if a name matches a pattern (supports * wildcards)
pub fn matches(pattern: &str, name: &str) -> (r: bool)
    ensures
        r == pattern_accepts(pattern@, name@),
{
    let wanted = chars_of(pattern);
    let chars = chars_of(name);
    let n = chars.len();
    // Whether the pattern from `i` on accepts the last `m` characters, for each `m`.
    let mut row: Vec<bool> = Vec::new();
    let mut i: usize = wanted.len();
    while row.len() <= n
        invariant
            n == name@.len(),
            i == pattern@.len(),
            row@.len() <= n + 1,
            forall|k: int|
                0 <= k < row@.len() ==> #[trigger] row@[k] == pattern_accepts(
                    pattern@.skip(i as int),
                    name@.skip(n - k),
                ),
        decreases n + 1 - row@.len(),
    {
        let is_end = row.len() == 0;
        row.push(is_end);
    }
    while i > 0
        invariant
            wanted@ == pattern@,
            chars@ == name@,
            n == name@.len(),
            i <= pattern@.len(),
            row@.len() == n + 1,
            forall|k: int|
                0 <= k <= n ==> #[trigger] row@[k] == pattern_accepts(
                    pattern@.skip(i as int),
                    name@.skip(n - k),
                ),
        decreases i,
    {
        i = i - 1;
        let c = wanted[i];
        let ghost rest = pattern@.skip(i as int);
        let ghost after = pattern@.skip(i + 1);
        assert(rest.skip(1) =~= after);
        assert(rest[0] == c);
        let mut next: Vec<bool> = Vec::new();
        let mut some = false;
        while next.len() <= n
            invariant
                chars@ == name@,
                n == name@.len(),
                next@.len() <= n + 1,
                row@.len() == n + 1,
                rest.len() > 0,
                rest.skip(1) == after,
                rest[0] == c,
                forall|k: int|
                    0 <= k <= n ==> #[trigger] row@[k] == pattern_accepts(after, name@.skip(n - k)),
                some == (exists|k: int| 0 <= k < next@.len() && #[trigger] row@[k]),
                forall|k: int|
                    0 <= k < next@.len() ==> #[trigger] next@[k] == pattern_accepts(
                        rest,
                        name@.skip(n - k),
                    ),
            decreases n + 1 - next@.len(),
        {
            let m = next.len();
            let ghost part = name@.skip(n - m);
            if row[m] {
                some = true;
            }
            if c == '*' {
                proof {
                    if some {
                        let k = choose|k: int| 0 <= k <= m && #[trigger] row@[k];
                        assert(part.skip(m - k) =~= name@.skip(n - k));
                        assert(pattern_accepts(rest.skip(1), part.skip(m - k)));
                    }
                    if pattern_accepts(rest, part) {
                        let k = choose|k: int|
                            0 <= k <= part.len() && pattern_accepts(
                                rest.skip(1),
                                #[trigger] part.skip(k),
                            );
                        assert(part.skip(k) =~= name@.skip(n - (m - k)));
                        assert(row@[m - k]);
                    }
                }
                next.push(some);
            } else if m == 0 {
                next.push(false);
            } else {
                assert(part.skip(1) =~= name@.skip(n - (m - 1)));
                assert(part[0] == chars@[n - m]);
                assert(row@[m - 1] == pattern_accepts(after, name@.skip(n - (m - 1))));
                next.push(chars[n - m] == c && row[m - 1]);
            }
        }
        row = next;
    }
    assert(pattern@.skip(0) =~= pattern@);
    assert(name@.skip(0) =~= name@);
    row[n]
}

/// Returns `true` if `name` matches any of the given `patterns`.
pub fn matches_any(patterns: &[String], name: &str) -> (r: bool)
    ensures
        r == any_accepts(texts(patterns@), name@),
{
    let mut i: usize = 0;
    while i < patterns.len()
        invariant
            i <= patterns@.len(),
            forall|j: int| 0 <= j < i ==> !pattern_accepts((#[trigger] patterns@[j])@, name@),
        decreases patterns@.len() - i,
    {
        if self::matches(patterns[i].as_str(), name) {
            assert(pattern_accepts(texts(patterns@)[i as int], name@));
            return true;
        }
        i = i + 1;
    }
    assert forall|j: int| 0 <= j < texts(patterns@).len() implies !pattern_accepts(
        #[trigger] texts(patterns@)[j],
        name@,
    ) by {
        assert(!pattern_accepts(patterns@[j]@, name@));
    }
    false
}

// ---------------------------------------------------------------------------------------------
// Wildcards at one end
// ---------------------------------------------------------------------------------------------
/// A pattern without a wildcard accepts the name that it spells, and no other.
pub proof fn lemma_plain_pattern(pattern: Seq<char>, name: Seq<char>)
    requires
        !pattern.contains('*'),
    ensures
        pattern_accepts(pattern, name) == (pattern == name),
    decreases pattern.len(),
{
    if pattern.len() > 0 {
        assert(pattern.contains(pattern[0]));
        assert forall|i: int| 0 <= i < pattern.skip(1).len() implies pattern.skip(1)[i] != '*' by {
            assert(pattern.contains(pattern[i + 1]));
        }
        lemma_plain_pattern(pattern.skip(1), name.skip(1));
        if name.len() > 0 {
            assert(pattern =~= seq![pattern[0]] + pattern.skip(1));
            assert(name =~= seq![name[0]] + name.skip(1));
        }
    } else {
        assert(pattern == name <==> name.len() == 0) by {
            if name.len() == 0 {
                assert(pattern =~= name);
            }
        }
    }
}

/// A pattern whose only wildcard is at its end accepts the names that start with the rest of it.
pub proof fn lemma_prefix_pattern(prefix: Seq<char>, name: Seq<char>)
    requires
        !prefix.contains('*'),
    ensures
        pattern_accepts(prefix.push('*'), name) == prefix.is_prefix_of(name),
    decreases prefix.len(),
{
    let pattern = prefix.push('*');
    if prefix.len() > 0 {
        assert(prefix.contains(prefix[0]));
        assert forall|i: int| 0 <= i < prefix.skip(1).len() implies prefix.skip(1)[i] != '*' by {
            assert(prefix.contains(prefix[i + 1]));
        }
        lemma_prefix_pattern(prefix.skip(1), name.skip(1));
        assert(pattern.skip(1) =~= prefix.skip(1).push('*'));
        if pattern_accepts(pattern, name) {
            assert forall|i: int| 0 <= i < prefix.len() implies prefix[i] == name[i] by {
                if i > 0 {
                    assert(prefix.skip(1)[i - 1] == name.skip(1)[i - 1]);
                }
            }
        }
        if prefix.is_prefix_of(name) {
            assert(prefix.skip(1) =~= name.skip(1).take(prefix.len() - 1));
        }
    } else {
        assert(pattern.skip(1) =~= Seq::<char>::empty());
        assert(pattern_accepts(pattern.skip(1), name.skip(name.len() as int)));
        assert(prefix =~= name.take(0));
    }
}

/// A pattern whose only wildcard is at its start accepts the names that end with the rest of it.
pub proof fn lemma_suffix_pattern(suffix: Seq<char>, name: Seq<char>)
    requires
        !suffix.contains('*'),
    ensures
        pattern_accepts(seq!['*'] + suffix, name) == suffix.is_suffix_of(name),
{
    let pattern = seq!['*'] + suffix;
    assert(pattern.skip(1) =~= suffix);
    assert forall|k: int| 0 <= k <= name.len() implies pattern_accepts(
        suffix,
        #[trigger] name.skip(k),
    ) == (suffix == name.skip(k)) by {
        lemma_plain_pattern(suffix, name.skip(k));
    }
    if suffix.is_suffix_of(name) {
        let k = name.len() - suffix.len();
        assert(name.skip(k) =~= suffix);
        assert(pattern_accepts(pattern.skip(1), name.skip(k)));
    }
}

} // verus!
