//! Text as sequences of characters: the small vocabulary that the other modules build on.

use vstd::prelude::*;

verus! {

/// `String::push` of std appends one character.
pub assume_specification[ std::string::String::push ](s: &mut std::string::String, c: char)
    ensures
        final(s)@ == old(s)@.push(c),
;

// ---------------------------------------------------------------------------------------------
// Models
// ---------------------------------------------------------------------------------------------
/// The texts of a list of strings.
pub open spec fn texts(list: Seq<String>) -> Seq<Seq<char>> {
    Seq::new(list.len(), |i: int| list[i]@)
}

/// The text of an optional string.
pub open spec fn text_of(s: Option<String>) -> Option<Seq<char>> {
    match s {
        Some(t) => Some(t@),
        None => None,
    }
}

/// The text of an optional string slice.
pub open spec fn str_text(s: Option<&str>) -> Option<Seq<char>> {
    match s {
        Some(t) => Some(t@),
        None => None,
    }
}

/// The texts of a list of lists of strings.
pub open spec fn text_lists(list: Seq<Vec<String>>) -> Seq<Seq<Seq<char>>> {
    Seq::new(list.len(), |i: int| texts(list[i]@))
}

/// The parts written one after another with `sep` between neighbours.
pub open spec fn joined(parts: Seq<Seq<char>>, sep: Seq<char>) -> Seq<char>
    decreases parts.len(),
{
    if parts.len() == 0 {
        seq![]
    } else if parts.len() == 1 {
        parts[0]
    } else {
        joined(parts.drop_last(), sep) + sep + parts.last()
    }
}

/// The pieces of `s` between the occurrences of `sep`; always at least one piece.
pub open spec fn pieces(s: Seq<char>, sep: char) -> Seq<Seq<char>>
    decreases s.len(),
{
    if s.len() == 0 {
        seq![Seq::<char>::empty()]
    } else {
        let before = pieces(s.drop_last(), sep);
        if s.last() == sep {
            before.push(Seq::<char>::empty())
        } else {
            before.update(before.len() - 1, before.last().push(s.last()))
        }
    }
}

/// The characters with Unicode's `White_Space` property.
pub open spec fn is_space(c: char) -> bool {
    let n = c as u32;
    ||| 0x9 <= n <= 0xD
    ||| n == 0x20
    ||| n == 0x85
    ||| n == 0xA0
    ||| n == 0x1680
    ||| 0x2000 <= n <= 0x200A
    ||| n == 0x2028
    ||| n == 0x2029
    ||| n == 0x202F
    ||| n == 0x205F
    ||| n == 0x3000
}

/// `s` without the white space at its front.
pub open spec fn trimmed_front(s: Seq<char>) -> Seq<char>
    decreases s.len(),
{
    if s.len() > 0 && is_space(s[0]) {
        trimmed_front(s.drop_first())
    } else {
        s
    }
}

/// `s` without the white space at its end.
pub open spec fn trimmed_back(s: Seq<char>) -> Seq<char>
    decreases s.len(),
{
    if s.len() > 0 && is_space(s.last()) {
        trimmed_back(s.drop_last())
    } else {
        s
    }
}

/// `s` without the white space at either end.
pub open spec fn trimmed(s: Seq<char>) -> Seq<char> {
    trimmed_back(trimmed_front(s))
}

/// `part` stands in `s` at position `at`.
pub open spec fn stands_at(s: Seq<char>, part: Seq<char>, at: int) -> bool {
    0 <= at && at + part.len() <= s.len() && s.subrange(at, at + part.len()) == part
}

/// `part` stands somewhere in `s`.
pub open spec fn has_part(s: Seq<char>, part: Seq<char>) -> bool {
    exists|at: int| stands_at(s, part, at)
}

/// The first position of `part` in `s` that is not before `from`.
pub open spec fn first_place(s: Seq<char>, part: Seq<char>, from: int) -> Option<int>
    decreases s.len() - part.len() - from + 1,
{
    if from + part.len() > s.len() {
        None
    } else if stands_at(s, part, from) {
        Some(from)
    } else {
        first_place(s, part, from + 1)
    }
}

/// The decimal digit of `d`.
pub open spec fn digit(d: nat) -> char {
    ((48 + d % 10) as u32) as char
}

/// The decimal digits of `n`, with no leading zero.
pub open spec fn nat_text(n: nat) -> Seq<char>
    decreases n,
{
    if n < 10 {
        seq![digit(n)]
    } else {
        nat_text(n / 10).push(digit(n % 10))
    }
}

/// The decimal text of `n`, with `-` in front of a negative number.
pub open spec fn int_text(n: int) -> Seq<char> {
    if n < 0 {
        seq!['-'] + nat_text((-n) as nat)
    } else {
        nat_text(n as nat)
    }
}

/// The character is a decimal digit.
pub open spec fn is_digit(c: char) -> bool {
    '0' <= c <= '9'
}

/// The characters are decimal digits.
pub open spec fn all_digits(s: Seq<char>) -> bool {
    forall|i: int| 0 <= i < s.len() ==> is_digit(#[trigger] s[i])
}

/// The number that a text of decimal digits stands for.
pub open spec fn digits_value(s: Seq<char>) -> nat
    decreases s.len(),
{
    if s.len() == 0 {
        0
    } else {
        10 * digits_value(s.drop_last()) + (s.last() as u32 - 48) as nat
    }
}

/// A text without a leading `+`.
pub open spec fn unsigned_part(s: Seq<char>) -> Seq<char> {
    if s.len() > 0 && s[0] == '+' {
        s.drop_first()
    } else {
        s
    }
}

/// The text is that of a number that fits: digits, after a `+` at most.
pub open spec fn is_usize_text(s: Seq<char>) -> bool {
    unsigned_part(s).len() > 0 && all_digits(unsigned_part(s)) && digits_value(unsigned_part(s))
        <= usize::MAX
}

/// The lower-case hexadecimal digit of `d`.
pub open spec fn hex_digit(d: nat) -> char {
    if d % 16 < 10 {
        ((48 + d % 16) as u32) as char
    } else {
        ((87 + d % 16) as u32) as char
    }
}

/// The last `width` hexadecimal digits of `n`.
pub open spec fn hex_text(n: nat, width: nat) -> Seq<char>
    decreases width,
{
    if width == 0 {
        seq![]
    } else {
        hex_text(n / 16, (width - 1) as nat).push(hex_digit(n % 16))
    }
}

// ---------------------------------------------------------------------------------------------
// Characters and strings
// ---------------------------------------------------------------------------------------------
/// The characters of `s`.
pub fn chars_of(s: &str) -> (chars: Vec<char>)
    ensures
        chars@ == s@,
{
    let mut chars: Vec<char> = Vec::new();
    for c in it: s.chars()
        invariant
            it.seq() == s@,
            chars@ == s@.take(it.index() as int),
    {
        chars.push(c);
        assert(s@.take(it.index() + 1) =~= s@.take(it.index() as int).push(c));
    }
    assert(s@.take(s@.len() as int) =~= s@);
    chars
}

/// The characters from `from` up to `to`, as a string.
pub fn string_of(chars: &[char], from: usize, to: usize) -> (s: String)
    requires
        from <= to <= chars@.len(),
    ensures
        s@ == chars@.subrange(from as int, to as int),
{
    let mut s = String::new();
    let mut i: usize = from;
    while i < to
        invariant
            from <= i <= to <= chars@.len(),
            s@ == chars@.subrange(from as int, i as int),
        decreases to - i,
    {
        s.push(chars[i]);
        i = i + 1;
        assert(chars@.subrange(from as int, i as int) =~= chars@.subrange(
            from as int,
            i - 1,
        ).push(chars@[i - 1]));
    }
    s
}

/// Whether two character lists are the same.
pub fn same_chars(a: &[char], b: &[char]) -> (same: bool)
    ensures
        same == (a@ == b@),
{
    if a.len() != b.len() {
        return false;
    }
    let mut i: usize = 0;
    while i < a.len()
        invariant
            i <= a@.len() == b@.len(),
            a@.take(i as int) == b@.take(i as int),
        decreases a@.len() - i,
    {
        if a[i] != b[i] {
            return false;
        }
        i = i + 1;
        assert(a@.take(i as int) =~= a@.take(i - 1).push(a@[i - 1]));
        assert(b@.take(i as int) =~= b@.take(i - 1).push(b@[i - 1]));
    }
    assert(a@.take(a@.len() as int) =~= a@);
    assert(b@.take(b@.len() as int) =~= b@);
    true
}

/// Whether two texts are the same.
pub fn same(a: &str, b: &str) -> (r: bool)
    ensures
        r == (a@ == b@),
{
    let a_chars = chars_of(a);
    let b_chars = chars_of(b);
    same_chars(a_chars.as_slice(), b_chars.as_slice())
}

/// A string with the text of `s`.
pub fn copy(s: &str) -> (r: String)
    ensures
        r@ == s@,
{
    let chars = chars_of(s);
    let r = string_of(chars.as_slice(), 0, chars.len());
    assert(chars@.subrange(0, chars@.len() as int) =~= chars@);
    r
}

/// A list with the texts of `list`.
pub fn copy_all(list: &[String]) -> (r: Vec<String>)
    ensures
        texts(r@) == texts(list@),
{
    let mut r: Vec<String> = Vec::new();
    let mut i: usize = 0;
    while i < list.len()
        invariant
            i <= list@.len(),
            r@.len() == i,
            forall|j: int| 0 <= j < i ==> (#[trigger] r@[j])@ == list@[j]@,
        decreases list@.len() - i,
    {
        r.push(copy(list[i].as_str()));
        i = i + 1;
    }
    assert(texts(r@) =~= texts(list@));
    r
}

/// The text of `s`, if there is one.
pub fn copy_option(s: &Option<String>) -> (r: Option<String>)
    ensures
        text_of(r) == text_of(*s),
{
    match s {
        Some(t) => Some(copy(t.as_str())),
        None => None,
    }
}

/// Whether two lists hold the same texts in the same order.
pub fn same_all(a: &[String], b: &[String]) -> (r: bool)
    ensures
        r == (texts(a@) == texts(b@)),
{
    if a.len() != b.len() {
        assert(texts(a@).len() != texts(b@).len());
        return false;
    }
    let mut i: usize = 0;
    while i < a.len()
        invariant
            i <= a@.len() == b@.len(),
            forall|j: int| 0 <= j < i ==> (#[trigger] a@[j])@ == b@[j]@,
        decreases a@.len() - i,
    {
        if !same(a[i].as_str(), b[i].as_str()) {
            assert(texts(a@)[i as int] != texts(b@)[i as int]);
            return false;
        }
        i = i + 1;
    }
    assert(texts(a@) =~= texts(b@));
    true
}

/// Whether `list` holds the text `s`.
pub fn holds(list: &[String], s: &str) -> (r: bool)
    ensures
        r == texts(list@).contains(s@),
{
    let mut i: usize = 0;
    while i < list.len()
        invariant
            i <= list@.len(),
            forall|j: int| 0 <= j < i ==> (#[trigger] list@[j])@ != s@,
        decreases list@.len() - i,
    {
        if same(list[i].as_str(), s) {
            assert(texts(list@)[i as int] == s@);
            return true;
        }
        i = i + 1;
    }
    assert forall|j: int| 0 <= j < texts(list@).len() implies texts(list@)[j] != s@ by {
        assert(list@[j]@ != s@);
    }
    false
}

/// Whether `s` starts with `prefix`.
pub fn starts_with(s: &str, prefix: &str) -> (r: bool)
    ensures
        r == prefix@.is_prefix_of(s@),
{
    let s_chars = chars_of(s);
    let p_chars = chars_of(prefix);
    if p_chars.len() > s_chars.len() {
        return false;
    }
    let mut i: usize = 0;
    while i < p_chars.len()
        invariant
            s_chars@ == s@,
            p_chars@ == prefix@,
            i <= p_chars@.len() <= s_chars@.len(),
            forall|j: int| 0 <= j < i ==> s_chars@[j] == p_chars@[j],
        decreases p_chars@.len() - i,
    {
        if s_chars[i] != p_chars[i] {
            assert(s@.subrange(0, prefix@.len() as int)[i as int] != prefix@[i as int]);
            return false;
        }
        i = i + 1;
    }
    assert(prefix@ =~= s@.subrange(0, prefix@.len() as int));
    true
}

/// Whether `s` ends with `suffix`.
pub fn ends_with(s: &str, suffix: &str) -> (r: bool)
    ensures
        r == suffix@.is_suffix_of(s@),
{
    let s_chars = chars_of(s);
    let p_chars = chars_of(suffix);
    if p_chars.len() > s_chars.len() {
        return false;
    }
    let start: usize = s_chars.len() - p_chars.len();
    let mut i: usize = 0;
    while i < p_chars.len()
        invariant
            s_chars@ == s@,
            p_chars@ == suffix@,
            i <= p_chars@.len() <= s_chars@.len(),
            start + p_chars.len() == s_chars.len(),
            forall|j: int| 0 <= j < i ==> s_chars@[start + j] == p_chars@[j],
        decreases p_chars@.len() - i,
    {
        if s_chars[start + i] != p_chars[i] {
            assert(s@.subrange(start as int, s@.len() as int)[i as int] != suffix@[i as int]);
            return false;
        }
        i = i + 1;
    }
    assert(suffix@ =~= s@.subrange(start as int, s@.len() as int));
    true
}

/// The first position of `part` in `s`.
pub fn find(s: &[char], part: &[char]) -> (r: Option<usize>)
    ensures
        match r {
            Some(at) => first_place(s@, part@, 0) == Some(at as int) && stands_at(
                s@,
                part@,
                at as int,
            ),
            None => first_place(s@, part@, 0) is None && !has_part(s@, part@),
        },
{
    if part.len() > s.len() {
        return None;
    }
    let last: usize = s.len() - part.len();
    let mut at: usize = 0;
    loop
        invariant
            part@.len() <= s@.len(),
            last == s@.len() - part@.len(),
            at <= last,
            forall|j: int| 0 <= j < at ==> !stands_at(s@, part@, j),
            first_place(s@, part@, 0) == first_place(s@, part@, at as int),
        decreases last - at,
    {
        let mut i: usize = 0;
        let mut found = true;
        while i < part.len() && found
            invariant
                at + part.len() <= s.len(),
                i <= part@.len(),
                found ==> forall|j: int| 0 <= j < i ==> s@[at + j] == part@[j],
                !found ==> !stands_at(s@, part@, at as int),
            decreases part@.len() - i,
        {
            if s[at + i] != part[i] {
                assert(s@.subrange(at as int, at + part@.len())[i as int] != part@[i as int]);
                found = false;
            }
            i = i + 1;
        }
        if found {
            assert(s@.subrange(at as int, at + part@.len()) =~= part@);
            return Some(at);
        }
        if at == last {
            assert(first_place(s@, part@, at + 1) is None);
            return None;
        }
        at = at + 1;
    }
}

/// Whether `part` stands somewhere in `s`.
pub fn contains(s: &str, part: &str) -> (r: bool)
    ensures
        r == has_part(s@, part@),
{
    let chars = chars_of(s);
    let part_chars = chars_of(part);
    match find(chars.as_slice(), part_chars.as_slice()) {
        Some(_) => true,
        None => false,
    }
}

/// The parts written one after another with `sep` between neighbours.
pub fn join(parts: &[String], sep: &str) -> (r: String)
    ensures
        r@ == joined(texts(parts@), sep@),
{
    let ghost all = texts(parts@);
    let mut r = String::new();
    let mut i: usize = 0;
    while i < parts.len()
        invariant
            i <= parts@.len(),
            all == texts(parts@),
            r@ == joined(all.take(i as int), sep@),
        decreases parts@.len() - i,
    {
        if i > 0 {
            r.append(sep);
        }
        r.append(parts[i].as_str());
        i = i + 1;
        proof {
            let now = all.take(i as int);
            assert(now.drop_last() =~= all.take(i - 1));
            assert(now.last() == parts@[i - 1]@);
            if i == 1 {
                assert(all.take(0) =~= Seq::<Seq<char>>::empty());
                assert(r@ =~= now[0]);
            }
        }
    }
    assert(all.take(all.len() as int) =~= all);
    r
}

pub proof fn lemma_pieces_nonempty(s: Seq<char>, sep: char)
    ensures
        pieces(s, sep).len() > 0,
    decreases s.len(),
{
    if s.len() > 0 {
        lemma_pieces_nonempty(s.drop_last(), sep);
    }
}

/// The pieces of `s` between the occurrences of `sep`.
pub fn split(s: &str, sep: char) -> (r: Vec<String>)
    ensures
        texts(r@) == pieces(s@, sep),
        r@.len() > 0,
{
    let chars = chars_of(s);
    let mut r: Vec<String> = Vec::new();
    let mut current = String::new();
    let mut i: usize = 0;
    assert(texts(r@).push(current@) =~= pieces(chars@.take(0), sep));
    while i < chars.len()
        invariant
            chars@ == s@,
            i <= chars@.len(),
            texts(r@).push(current@) == pieces(chars@.take(i as int), sep),
        decreases chars@.len() - i,
    {
        let c = chars[i];
        let ghost before = pieces(chars@.take(i as int), sep);
        proof {
            assert(chars@.take(i + 1).drop_last() =~= chars@.take(i as int));
            assert(chars@.take(i + 1).last() == c);
        }
        if c == sep {
            let ghost prior = r@;
            let ghost piece = current@;
            r.push(current);
            current = String::new();
            assert(texts(r@) =~= texts(prior).push(piece));
        } else {
            let ghost piece = current@;
            current.push(c);
            assert(before.update(before.len() - 1, before.last().push(c)) =~= texts(r@).push(
                current@,
            )) by {
                assert(before =~= texts(r@).push(piece));
            }
        }
        i = i + 1;
    }
    let ghost prior = r@;
    let ghost piece = current@;
    r.push(current);
    assert(texts(r@) =~= texts(prior).push(piece));
    assert(chars@.take(chars@.len() as int) =~= chars@);
    r
}

/// Whether `c` has Unicode's `White_Space` property.
pub fn is_white(c: char) -> (r: bool)
    ensures
        r == is_space(c),
{
    let n: u32 = c as u32;
    (0x9 <= n && n <= 0xD) || n == 0x20 || n == 0x85 || n == 0xA0 || n == 0x1680 || (0x2000 <= n
        && n <= 0x200A) || n == 0x2028 || n == 0x2029 || n == 0x202F || n == 0x205F || n == 0x3000
}

/// `s` without the white space at either end.
pub fn trim(s: &str) -> (r: String)
    ensures
        r@ == trimmed(s@),
{
    let chars = chars_of(s);
    let mut from: usize = 0;
    assert(chars@.skip(0) =~= chars@);
    while from < chars.len() && is_white(chars[from])
        invariant
            chars@ == s@,
            from <= chars@.len(),
            trimmed_front(chars@.skip(from as int)) == trimmed_front(s@),
        decreases chars@.len() - from,
    {
        assert(chars@.skip(from as int).drop_first() =~= chars@.skip(from + 1));
        from = from + 1;
    }
    assert(trimmed_front(s@) == chars@.skip(from as int));
    let mut to: usize = chars.len();
    assert(chars@.skip(from as int) =~= chars@.subrange(from as int, to as int));
    while from < to && is_white(chars[to - 1])
        invariant
            chars@ == s@,
            from <= to <= chars@.len(),
            trimmed_back(chars@.subrange(from as int, to as int)) == trimmed(s@),
        decreases to,
    {
        assert(chars@.subrange(from as int, to as int).drop_last() =~= chars@.subrange(
            from as int,
            to - 1,
        ));
        to = to - 1;
    }
    string_of(chars.as_slice(), from, to)
}

// ---------------------------------------------------------------------------------------------
// Numbers
// ---------------------------------------------------------------------------------------------
fn digit_char(d: u64) -> (c: char)
    requires
        d < 10,
    ensures
        c == digit(d as nat),
{
    (48u8 + d as u8) as char
}

/// The decimal digits of `n`.
pub fn u64_string(n: u64) -> (r: String)
    ensures
        r@ == nat_text(n as nat),
    decreases n,
{
    if n < 10 {
        let mut r = String::new();
        r.push(digit_char(n));
        assert(r@ =~= nat_text(n as nat));
        r
    } else {
        let mut r = u64_string(n / 10);
        r.push(digit_char(n % 10));
        r
    }
}

/// The decimal digits of `n`.
pub fn usize_string(n: usize) -> (r: String)
    ensures
        r@ == nat_text(n as nat),
{
    u64_string(n as u64)
}

/// The decimal text of `n`.
pub fn i64_string(n: i64) -> (r: String)
    ensures
        r@ == int_text(n as int),
{
    if n < 0 {
        let magnitude: u64 = if n == i64::MIN {
            0x8000_0000_0000_0000u64
        } else {
            (-n) as u64
        };
        let digits = u64_string(magnitude);
        let mut r = String::new();
        r.push('-');
        r.append(digits.as_str());
        assert(r@ =~= seq!['-'] + nat_text((-(n as int)) as nat));
        r
    } else {
        u64_string(n as u64)
    }
}

fn hex_char(d: u32) -> (c: char)
    requires
        d < 16,
    ensures
        c == hex_digit(d as nat),
{
    if d < 10 {
        (48u8 + d as u8) as char
    } else {
        (87u8 + d as u8) as char
    }
}

/// The last `width` hexadecimal digits of `n`.
pub fn hex_string(n: u32, width: u32) -> (r: String)
    ensures
        r@ == hex_text(n as nat, width as nat),
    decreases width,
{
    if width == 0 {
        let r = String::new();
        assert(r@ =~= Seq::<char>::empty());
        r
    } else {
        let mut r = hex_string(n / 16, width - 1);
        r.push(hex_char(n % 16));
        r
    }
}

pub proof fn lemma_digits_value_grows(s: Seq<char>, n: int)
    requires
        0 <= n <= s.len(),
    ensures
        digits_value(s.take(n)) <= digits_value(s),
    decreases s.len() - n,
{
    if n < s.len() {
        lemma_digits_value_grows(s, n + 1);
        assert(s.take(n + 1).drop_last() =~= s.take(n));
    } else {
        assert(s.take(n) =~= s);
    }
}

/// The number that a text stands for: digits, after a `+` at most.
pub fn parse_usize(s: &str) -> (r: Option<usize>)
    ensures
        match r {
            Some(n) => is_usize_text(s@) && n == digits_value(unsigned_part(s@)),
            None => !is_usize_text(s@),
        },
{
    let chars = chars_of(s);
    let start: usize = if chars.len() > 0 && chars[0] == '+' {
        1
    } else {
        0
    };
    let ghost part = unsigned_part(s@);
    assert(part =~= s@.skip(start as int));
    if start == chars.len() {
        return None;
    }
    let mut n: usize = 0;
    let mut i: usize = start;
    assert(part.take(0) =~= Seq::<char>::empty());
    while i < chars.len()
        invariant
            chars@ == s@,
            start <= i <= chars@.len(),
            part == unsigned_part(s@),
            part == s@.skip(start as int),
            all_digits(part.take(i - start)),
            n == digits_value(part.take(i - start)),
        decreases chars@.len() - i,
    {
        let c = chars[i];
        let ghost at = i - start;
        proof {
            assert(part[at] == c);
            assert(part.take(at + 1).drop_last() =~= part.take(at));
            assert(part.take(at + 1).last() == c);
        }
        if c < '0' || '9' < c {
            assert(!is_digit(part[at]));
            return None;
        }
        let d: usize = (c as u32 - 48) as usize;
        if n > usize::MAX / 10 || 10 * n > usize::MAX - d {
            proof {
                lemma_digits_value_grows(part, at + 1);
            }
            return None;
        }
        n = 10 * n + d;
        i = i + 1;
        assert forall|j: int| 0 <= j < part.take(i - start).len() implies is_digit(
            #[trigger] part.take(i - start)[j],
        ) by {
            if j < at {
                assert(part.take(at)[j] == part[j]);
            }
        }
    }
    assert(part.take(i - start) =~= part);
    Some(n)
}

/// The first place is the one before which there is none.
pub proof fn lemma_first_place_is_first(s: Seq<char>, part: Seq<char>, from: int, at: int)
    requires
        0 <= from <= at,
        stands_at(s, part, at),
        forall|j: int| from <= j < at ==> !stands_at(s, part, j),
    ensures
        first_place(s, part, from) == Some(at),
    decreases at - from,
{
    if from < at {
        assert(!stands_at(s, part, from));
        lemma_first_place_is_first(s, part, from + 1, at);
    }
}

// ---------------------------------------------------------------------------------------------
// Pieces of a text
// ---------------------------------------------------------------------------------------------
proof fn lemma_piece_grows(s: Seq<char>, t: Seq<char>, sep: char)
    requires
        !t.contains(sep),
    ensures
        pieces(s, sep).len() > 0,
        pieces(s + t, sep) == pieces(s, sep).update(
            pieces(s, sep).len() - 1,
            pieces(s, sep).last() + t,
        ),
    decreases t.len(),
{
    let before = pieces(s, sep);
    lemma_pieces_nonempty(s, sep);
    if t.len() == 0 {
        assert(s + t =~= s);
        assert(before.last() + t =~= before.last());
        assert(before.update(before.len() - 1, before.last() + t) =~= before);
    } else {
        let front = t.drop_last();
        assert(t.contains(t.last()));
        assert(!front.contains(sep)) by {
            if front.contains(sep) {
                let k = choose|k: int| 0 <= k < front.len() && front[k] == sep;
                assert(t[k] == sep);
            }
        }
        lemma_piece_grows(s, front, sep);
        assert((s + t).drop_last() =~= s + front);
        let grown = pieces(s + front, sep);
        assert(grown.last() == before.last() + front);
        assert(grown.last().push(t.last()) =~= before.last() + t);
        assert(pieces(s + t, sep) =~= before.update(before.len() - 1, before.last() + t));
    }
}

/// No piece holds the separator.
pub proof fn lemma_pieces_hold_no_separator(s: Seq<char>, sep: char)
    ensures
        forall|i: int|
            0 <= i < pieces(s, sep).len() ==> !(#[trigger] pieces(s, sep)[i]).contains(sep),
    decreases s.len(),
{
    if s.len() > 0 {
        let before = pieces(s.drop_last(), sep);
        let after = pieces(s, sep);
        lemma_pieces_nonempty(s.drop_last(), sep);
        lemma_pieces_hold_no_separator(s.drop_last(), sep);
        assert forall|i: int| 0 <= i < after.len() implies !(#[trigger] after[i]).contains(sep) by {
            if i < before.len() {
                assert(!before[i].contains(sep));
                if after[i].contains(sep) {
                    let k = choose|k: int| 0 <= k < after[i].len() && after[i][k] == sep;
                    assert(k < before[i].len() ==> before[i][k] == sep);
                }
            }
        }
    }
}

/// Parts that do not hold the separator are the pieces of what they are joined to.
pub proof fn lemma_joined_is_split_back(parts: Seq<Seq<char>>, sep: char)
    requires
        parts.len() > 0,
        forall|i: int| 0 <= i < parts.len() ==> !(#[trigger] parts[i]).contains(sep),
    ensures
        pieces(joined(parts, seq![sep]), sep) == parts,
    decreases parts.len(),
{
    let none = Seq::<char>::empty();
    let last = parts.last();
    assert(last == parts[parts.len() - 1]);
    if parts.len() == 1 {
        lemma_piece_grows(none, last, sep);
        assert(none + last =~= last);
        assert(pieces(none, sep) =~= seq![none]);
        assert(pieces(last, sep) =~= parts);
    } else {
        let front = parts.drop_last();
        assert forall|i: int| 0 <= i < front.len() implies !(#[trigger] front[i]).contains(sep) by {
            assert(front[i] == parts[i]);
        }
        lemma_joined_is_split_back(front, sep);
        let start = joined(front, seq![sep]);
        let open = start + seq![sep];
        assert(open.drop_last() =~= start);
        assert(open.last() == sep);
        assert(pieces(open, sep) == front.push(none));
        lemma_piece_grows(open, last, sep);
        assert(none + last =~= last);
        assert(front.push(none).last() == none);
        assert(pieces(open + last, sep) =~= parts);
    }
}

/// The pieces of a text, joined again, are the text.
pub proof fn lemma_pieces_are_joined_back(s: Seq<char>, sep: char)
    ensures
        joined(pieces(s, sep), seq![sep]) == s,
    decreases s.len(),
{
    let parts = pieces(s, sep);
    lemma_pieces_nonempty(s, sep);
    if s.len() == 0 {
        assert(joined(parts, seq![sep]) =~= s);
    } else {
        let front = s.drop_last();
        let before = pieces(front, sep);
        lemma_pieces_nonempty(front, sep);
        lemma_pieces_are_joined_back(front, sep);
        if s.last() == sep {
            assert(parts.drop_last() =~= before);
            assert(joined(parts, seq![sep]) =~= s);
        } else {
            assert(parts.drop_last() =~= before.drop_last());
            assert(parts.last() == before.last().push(s.last()));
            let c = s.last();
            assert(s =~= front.push(c));
            if parts.len() == 1 {
                assert(joined(before, seq![sep]) == before[0]);
                assert(joined(parts, seq![sep]) == parts[0]);
                assert(parts[0] == before[0].push(c));
            } else {
                let lead = joined(before.drop_last(), seq![sep]) + seq![sep];
                assert(joined(before, seq![sep]) == lead + before.last());
                assert(joined(parts, seq![sep]) == lead + parts.last());
                assert(lead + before.last().push(c) =~= (lead + before.last()).push(c));
            }
        }
    }
}

proof fn lemma_trimmed_front(blanks: Seq<char>, s: Seq<char>)
    requires
        forall|i: int| 0 <= i < blanks.len() ==> #[trigger] blanks[i] == ' ',
        s.len() > 0,
        !is_space(s[0]),
    ensures
        trimmed_front(blanks + s) == s,
    decreases blanks.len(),
{
    let all = blanks + s;
    if blanks.len() > 0 {
        assert(all[0] == blanks[0]);
        let less = blanks.drop_first();
        assert forall|i: int| 0 <= i < less.len() implies #[trigger] less[i] == ' ' by {
            assert(less[i] == blanks[i + 1]);
        }
        lemma_trimmed_front(less, s);
        assert(all.drop_first() =~= less + s);
    } else {
        assert(all =~= s);
    }
}

proof fn lemma_trimmed_back(s: Seq<char>, blanks: Seq<char>)
    requires
        forall|i: int| 0 <= i < blanks.len() ==> #[trigger] blanks[i] == ' ',
        s.len() > 0,
        !is_space(s.last()),
    ensures
        trimmed_back(s + blanks) == s,
    decreases blanks.len(),
{
    let all = s + blanks;
    if blanks.len() > 0 {
        assert(all.last() == blanks[blanks.len() - 1]);
        let less = blanks.drop_last();
        assert forall|i: int| 0 <= i < less.len() implies #[trigger] less[i] == ' ' by {
            assert(less[i] == blanks[i]);
        }
        lemma_trimmed_back(s, less);
        assert(all.drop_last() =~= s + less);
    } else {
        assert(all =~= s);
    }
}

/// Trimming takes the blanks off both ends of a text, and nothing else: here of one whose first and
/// last characters are printable ASCII characters.
pub proof fn lemma_trimmed(before: Seq<char>, s: Seq<char>, after: Seq<char>)
    requires
        forall|i: int| 0 <= i < before.len() ==> #[trigger] before[i] == ' ',
        forall|i: int| 0 <= i < after.len() ==> #[trigger] after[i] == ' ',
        s.len() > 0,
        '!' <= s[0] <= '~',
        '!' <= s[s.len() - 1] <= '~',
    ensures
        trimmed(before + s + after) == s,
{
    let tail = s + after;
    assert(before + s + after =~= before + tail);
    assert(tail[0] == s[0]);
    lemma_trimmed_front(before, tail);
    lemma_trimmed_back(s, after);
}

// ---------------------------------------------------------------------------------------------
// Numbers and their texts
// ---------------------------------------------------------------------------------------------
/// The digits of a number are digits, and stand for that number.
pub proof fn lemma_digits_of_number(n: nat)
    ensures
        nat_text(n).len() > 0,
        all_digits(nat_text(n)),
        digits_value(nat_text(n)) == n,
    decreases n,
{
    let s = nat_text(n);
    let d = n % 10;
    assert(is_digit(digit(d)) && digit(d) as u32 == 48 + d);
    if n < 10 {
        assert(s.drop_last() =~= Seq::<char>::empty());
        assert(digits_value(s.drop_last()) == 0);
        assert(s.last() == digit(n));
    } else {
        lemma_digits_of_number(n / 10);
        assert(s.drop_last() =~= nat_text(n / 10));
        assert forall|i: int| 0 <= i < s.len() implies is_digit(#[trigger] s[i]) by {
            if i < s.len() - 1 {
                assert(s[i] == nat_text(n / 10)[i]);
            }
        }
    }
}

/// The text of a number is read back as that number.
pub proof fn lemma_number_is_read_back(n: usize)
    ensures
        is_usize_text(nat_text(n as nat)),
        digits_value(unsigned_part(nat_text(n as nat))) == n,
{
    lemma_digits_of_number(n as nat);
    assert(is_digit(nat_text(n as nat)[0]));
}

/// Different numbers have different texts.
pub proof fn lemma_numbers_are_told_apart(m: nat, n: nat)
    requires
        nat_text(m) == nat_text(n),
    ensures
        m == n,
{
    lemma_digits_of_number(m);
    lemma_digits_of_number(n);
}

} // verus!
