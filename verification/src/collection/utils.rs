//! Collection utility functions.

use crate::strings::{
    chars_of, contains, ends_with, has_part, same, starts_with, string_of, texts,
};
use vstd::prelude::*;

verus! {

/// What the `glob` crate says of a pattern and a text without backslashes: nothing for a pattern
/// that it refuses, else whether the text matches.
pub uninterp spec fn glob_result(pattern: Seq<char>, text: Seq<char>) -> Option<bool>;

/// The text holds no backslash, which separates names on some platforms only.
pub open spec fn no_backslash(s: Seq<char>) -> bool {
    !s.contains('\\')
}

/// None of the texts holds a backslash.
pub open spec fn no_backslashes(list: Seq<Seq<char>>) -> bool {
    forall|i: int| 0 <= i < list.len() ==> no_backslash(#[trigger] list[i])
}

/// The text holds no character with a meaning of its own in a pattern.
pub open spec fn is_plain(s: Seq<char>) -> bool {
    !s.contains('?') && !s.contains('*') && !s.contains('[')
}

/// `text` is `head`, anything, and `tail`.
pub open spec fn is_framed(text: Seq<char>, head: Seq<char>, tail: Seq<char>) -> bool {
    text.len() >= head.len() + tail.len() && head.is_prefix_of(text) && tail.is_suffix_of(text)
}

/// `glob::Pattern::new` and `glob::Pattern::matches`: the answer to whether the text matches, or
/// nothing where the pattern is refused. The crate treats a backslash as a path separator on some
/// platforms, so the answer is only named for a pattern and a text without any. A pattern without
/// `?`, `*` and `[` then matches itself alone; one with a single `*` matches what starts with the
/// part before it and ends with the part behind it. Of patterns and texts with backslashes nothing
/// is claimed.
#[verifier::external_body]
fn ask_glob(pattern: &str, text: &str) -> (r: Option<bool>)
    ensures
        no_backslash(pattern@) && no_backslash(text@) ==> r == glob_result(pattern@, text@),
        no_backslash(pattern@) && no_backslash(text@) && is_plain(pattern@) ==> r == Some(
            pattern@ == text@,
        ),
        forall|head: Seq<char>, tail: Seq<char>|
            no_backslash(pattern@) && no_backslash(text@) && is_plain(head) && is_plain(tail)
                && pattern@ == #[trigger] (head + seq!['*'] + tail) ==> r == Some(
                is_framed(text@, head, tail),
            ),
{
    match glob::Pattern::new(pattern) {
        Ok(compiled) => Some(compiled.matches(text)),
        Err(_) => None,
    }
}

/// The simple matching of a pattern that the `glob` crate refuses: `*` at both ends asks for a
/// part, at the front for a suffix, at the end for a prefix.
pub open spec fn simple_match(pattern: Seq<char>, text: Seq<char>) -> bool {
    if pattern.len() >= 2 && pattern[0] == '*' && pattern.last() == '*' {
        has_part(text, pattern.subrange(1, pattern.len() - 1))
    } else if pattern.len() >= 1 && pattern[0] == '*' {
        pattern.drop_first().is_suffix_of(text)
    } else if pattern.len() >= 1 && pattern.last() == '*' {
        pattern.drop_last().is_prefix_of(text)
    } else {
        pattern == text
    }
}

/// Whether a text matches, given what the `glob` crate said.
pub open spec fn glob_verdict(said: Option<bool>, pattern: Seq<char>, text: Seq<char>) -> bool {
    match said {
        Some(matched) => matched,
        None => simple_match(pattern, text),
    }
}

/// A text without backslashes matches a pattern without any.
pub open spec fn glob_accepts(pattern: Seq<char>, text: Seq<char>) -> bool {
    glob_verdict(glob_result(pattern, text), pattern, text)
}

/// Some pattern of the list accepts the text.
pub open spec fn any_glob_accepts(patterns: Seq<Seq<char>>, text: Seq<char>) -> bool {
    exists|i: int| 0 <= i < patterns.len() && glob_accepts(#[trigger] patterns[i], text)
}

/// What may come of matching a text: the `glob` crate takes backslashes as its platform does, so a
/// pattern or a text that holds some leaves the verdict open.
pub open spec fn may_match(pattern: Seq<char>, text: Seq<char>, verdict: bool) -> bool {
    no_backslash(pattern) && no_backslash(text) ==> verdict == glob_accepts(pattern, text)
}

/// What may come of matching a text against each pattern of a list.
pub open spec fn are_verdicts(
    patterns: Seq<Seq<char>>,
    text: Seq<char>,
    verdicts: Seq<bool>,
) -> bool {
    verdicts.len() == patterns.len() && forall|i: int|
        0 <= i < patterns.len() ==> may_match(#[trigger] patterns[i], text, verdicts[i])
}

/// What may come of matching a text against a list: some pattern of it matches, or none does.
pub open spec fn may_match_any(
    patterns: Seq<Seq<char>>,
    text: Seq<char>,
    verdict: bool,
) -> bool {
    exists|verdicts: Seq<bool>| #[trigger]
        are_verdicts(patterns, text, verdicts) && verdict == verdicts.contains(true)
}

/// Whether a text matches, given what the `glob` crate said: simple matching is the fallback.
pub fn decide_glob(said: Option<bool>, pattern: &str, text: &str) -> (r: bool)
    ensures
        r == glob_verdict(said, pattern@, text@),
{
    if let Some(matched) = said {
        return matched;
    }
    let chars = chars_of(pattern);
    let n = chars.len();
    if n >= 2 && chars[0] == '*' && chars[n - 1] == '*' {
        let middle = string_of(chars.as_slice(), 1, n - 1);
        contains(text, middle.as_str())
    } else if n >= 1 && chars[0] == '*' {
        let suffix = string_of(chars.as_slice(), 1, n);
        assert(suffix@ =~= pattern@.drop_first());
        ends_with(text, suffix.as_str())
    } else if n >= 1 && chars[n - 1] == '*' {
        let prefix = string_of(chars.as_slice(), 0, n - 1);
        assert(prefix@ =~= pattern@.drop_last());
        starts_with(text, prefix.as_str())
    } else {
        same(pattern, text)
    }
}

/// Simple glob pattern matching
pub fn glob_match(pattern: &str, text: &str) -> (r: bool)
    ensures
        may_match(pattern@, text@, r),
        no_backslash(pattern@) && no_backslash(text@) && is_plain(pattern@) ==> r == (pattern@
            == text@),
        forall|head: Seq<char>, tail: Seq<char>|
            no_backslash(pattern@) && no_backslash(text@) && is_plain(head) && is_plain(tail)
                && pattern@ == #[trigger] (head + seq!['*'] + tail) ==> r == is_framed(
                text@,
                head,
                tail,
            ),
{
    let said = ask_glob(pattern, text);
    decide_glob(said, pattern, text)
}

/// Returns `true` if `text` matches any of the given glob `patterns`.
pub fn glob_match_any(patterns: &[String], text: &str) -> (r: bool)
    ensures
        no_backslashes(texts(patterns@)) && no_backslash(text@) ==> r == any_glob_accepts(
            texts(patterns@),
            text@,
        ),
        may_match_any(texts(patterns@), text@, r),
        patterns@.len() == 0 ==> !r,
{
    let ghost all = texts(patterns@);
    let ghost mut verdicts: Seq<bool> = Seq::empty();
    let mut i: usize = 0;
    while i < patterns.len()
        invariant
            i <= patterns@.len(),
            all == texts(patterns@),
            no_backslashes(all) && no_backslash(text@) ==> forall|j: int|
                0 <= j < i ==> !glob_accepts(#[trigger] all[j], text@),
            verdicts.len() == i,
            forall|j: int| 0 <= j < i ==> !#[trigger] verdicts[j],
            forall|j: int| 0 <= j < i ==> may_match(#[trigger] all[j], text@, verdicts[j]),
        decreases patterns@.len() - i,
    {
        assert(all[i as int] == patterns@[i as int]@);
        if glob_match(patterns[i].as_str(), text) {
            proof {
                let whole = Seq::new(
                    all.len(),
                    |j: int|
                        if j < i {
                            verdicts[j]
                        } else if j == i {
                            true
                        } else {
                            glob_accepts(all[j], text@)
                        },
                );
                assert(are_verdicts(all, text@, whole));
                assert(whole[i as int]);
                assert(whole.contains(true));
            }
            return true;
        }
        proof {
            verdicts = verdicts.push(false);
        }
        i = i + 1;
    }
    assert(are_verdicts(all, text@, verdicts));
    assert(!verdicts.contains(true));
    false
}

// ---------------------------------------------------------------------------------------------
// Lists of patterns
// ---------------------------------------------------------------------------------------------
/// A list of patterns accepts what one of its halves accepts.
pub proof fn lemma_joined_lists_accept(
    patterns: Seq<Seq<char>>,
    more: Seq<Seq<char>>,
    text: Seq<char>,
)
    ensures
        any_glob_accepts(patterns + more, text) == (any_glob_accepts(patterns, text)
            || any_glob_accepts(more, text)),
{
    let all = patterns + more;
    if any_glob_accepts(all, text) {
        let i = choose|i: int| 0 <= i < all.len() && glob_accepts(#[trigger] all[i], text);
        if i < patterns.len() {
            assert(glob_accepts(patterns[i], text));
        } else {
            assert(glob_accepts(more[i - patterns.len()], text));
        }
    }
    if any_glob_accepts(patterns, text) {
        let i = choose|i: int|
            0 <= i < patterns.len() && glob_accepts(#[trigger] patterns[i], text);
        assert(glob_accepts(all[i], text));
    }
    if any_glob_accepts(more, text) {
        let i = choose|i: int| 0 <= i < more.len() && glob_accepts(#[trigger] more[i], text);
        assert(glob_accepts(all[patterns.len() + i], text));
    }
}

/// Whatever comes of matching a text against each pattern of two lists, the joined list matches
/// where one of the two does.
pub proof fn lemma_joined_lists_match(
    patterns: Seq<Seq<char>>,
    more: Seq<Seq<char>>,
    text: Seq<char>,
    verdicts: Seq<bool>,
    more_verdicts: Seq<bool>,
)
    requires
        are_verdicts(patterns, text, verdicts),
        are_verdicts(more, text, more_verdicts),
    ensures
        are_verdicts(patterns + more, text, verdicts + more_verdicts),
        (verdicts + more_verdicts).contains(true) == (verdicts.contains(true)
            || more_verdicts.contains(true)),
        may_match_any(
            patterns + more,
            text,
            verdicts.contains(true) || more_verdicts.contains(true),
        ),
{
    let all = patterns + more;
    let both = verdicts + more_verdicts;
    assert forall|i: int| 0 <= i < all.len() implies may_match(#[trigger] all[i], text, both[i]) by {
        if i < patterns.len() {
            assert(may_match(patterns[i], text, verdicts[i]));
        } else {
            let k = i - patterns.len();
            assert(may_match(more[k], text, more_verdicts[k]));
        }
    }
    if verdicts.contains(true) {
        let k = choose|k: int| 0 <= k < verdicts.len() && verdicts[k];
        assert(both[k]);
    }
    if more_verdicts.contains(true) {
        let k = choose|k: int| 0 <= k < more_verdicts.len() && more_verdicts[k];
        assert(both[verdicts.len() + k]);
    }
    if both.contains(true) {
        let k = choose|k: int| 0 <= k < both.len() && both[k];
        if k < verdicts.len() {
            assert(verdicts[k]);
        } else {
            assert(more_verdicts[k - verdicts.len()]);
        }
    }
    assert(are_verdicts(all, text, both));
}

/// An empty list matches nothing, and a list of one pattern what may come of that pattern.
pub proof fn lemma_short_lists_match(pattern: Seq<char>, text: Seq<char>, verdict: bool)
    ensures
        !may_match_any(seq![], text, true),
        may_match_any(seq![pattern], text, verdict) == may_match(pattern, text, verdict),
{
    let none = Seq::<Seq<char>>::empty();
    assert forall|verdicts: Seq<bool>| #[trigger] are_verdicts(none, text, verdicts) implies
        !verdicts.contains(true) by {
        assert(verdicts.len() == 0);
    }
    let one = seq![pattern];
    if may_match(pattern, text, verdict) {
        let verdicts = seq![verdict];
        assert(are_verdicts(one, text, verdicts));
        assert(verdicts[0] == verdict);
        assert(verdicts.contains(true) == verdict);
    }
    if may_match_any(one, text, verdict) {
        let verdicts = choose|verdicts: Seq<bool>| #[trigger]
            are_verdicts(one, text, verdicts) && verdict == verdicts.contains(true);
        assert(may_match(one[0], text, verdicts[0]));
        assert(verdicts.contains(true) == verdicts[0]);
    }
}

/// An empty list accepts nothing, and a list of one pattern what that pattern accepts.
pub proof fn lemma_short_lists_accept(pattern: Seq<char>, text: Seq<char>)
    ensures
        !any_glob_accepts(seq![], text),
        any_glob_accepts(seq![pattern], text) == glob_accepts(pattern, text),
{
    if glob_accepts(pattern, text) {
        assert(glob_accepts(seq![pattern][0], text));
    }
}

/// Where simple matching decides, a star at both ends asks for what stands between them to be a
/// part of the text, one at the front for its end, one at the end for its start, and none for the
/// text itself.
pub proof fn lemma_simple_matching(middle: Seq<char>, text: Seq<char>)
    ensures
        simple_match(seq!['*'] + middle + seq!['*'], text) == has_part(text, middle),
        middle.len() > 0 && middle.last() != '*' ==> simple_match(seq!['*'] + middle, text)
            == middle.is_suffix_of(text),
        middle.len() > 0 && middle[0] != '*' ==> simple_match(middle + seq!['*'], text)
            == middle.is_prefix_of(text),
        middle.len() > 0 && middle[0] != '*' && middle.last() != '*' ==> simple_match(middle, text)
            == (middle == text),
        glob_verdict(None, middle, text) == simple_match(middle, text),
        glob_verdict(Some(true), middle, text),
        !glob_verdict(Some(false), middle, text),
{
    let both = seq!['*'] + middle + seq!['*'];
    assert(both.subrange(1, both.len() - 1) =~= middle);
    assert((seq!['*'] + middle).drop_first() =~= middle);
    assert((middle + seq!['*']).drop_last() =~= middle);
    assert((middle + seq!['*']).last() == '*');
    assert((seq!['*'] + middle)[0] == '*');
    if middle.len() > 0 {
        assert((seq!['*'] + middle).last() == middle.last());
        assert((middle + seq!['*'])[0] == middle[0]);
    }
}

} // verus!
