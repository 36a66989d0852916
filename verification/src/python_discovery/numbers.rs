//! The texts of numbers, as Python writes them.

use crate::strings::{
    all_digits, chars_of, copy, digit, digits_value, find, first_place, is_digit, is_usize_text,
    lemma_digits_of_number, lemma_first_place_is_first, lemma_number_is_read_back, nat_text,
    parse_usize, stands_at, string_of, unsigned_part, usize_string,
};
use vstd::prelude::*;

verus! {

/// `n` zeros.
pub open spec fn zeros(n: nat) -> Seq<char> {
    Seq::new(n, |i: int| '0')
}

/// The digits of a mantissa, without the point behind the first.
pub open spec fn mantissa_digits(mantissa: Seq<char>) -> Seq<char> {
    if mantissa.len() >= 2 && mantissa[1] == '.' {
        mantissa.take(1) + mantissa.skip(2)
    } else {
        mantissa
    }
}

/// The number `d.ddd` times ten to the power of `exponent`, without an exponent: there is a digit
/// on each side of the point.
pub open spec fn positional_text(digits: Seq<char>, exponent: int) -> Seq<char> {
    if exponent < 0 {
        seq!['0', '.'] + zeros((-exponent - 1) as nat) + digits
    } else if digits.len() <= exponent + 1 {
        digits + zeros((exponent + 1 - digits.len()) as nat) + seq!['.', '0']
    } else {
        digits.take(exponent + 1) + seq!['.'] + digits.skip(exponent + 1)
    }
}

/// The number `d.ddd` times ten to the power of `size`, or of `-size`, with an exponent that has a
/// sign and at least two digits.
pub open spec fn exponent_text(mantissa: Seq<char>, is_negative: bool, size: nat) -> Seq<char> {
    mantissa + seq![
        'e',
        if is_negative {
            '-'
        } else {
            '+'
        },
    ] + (if size < 10 {
        seq!['0']
    } else {
        seq![]
    }) + nat_text(size)
}

/// The exponent has a minus sign.
pub open spec fn is_negative(exponent: Seq<char>) -> bool {
    exponent.len() > 0 && exponent[0] == '-'
}

/// The exponent without its minus sign.
pub open spec fn exponent_size(exponent: Seq<char>) -> Seq<char> {
    if is_negative(exponent) {
        exponent.drop_first()
    } else {
        exponent
    }
}

/// Python's text of a number that is given in scientific notation (`2e0`, `1.5e-7`): without an
/// exponent from `0.0001` up to (and not with) `1e16`, with one below and above. What is not in
/// scientific notation (`inf`) stays as it is.
pub open spec fn float_text(scientific: Seq<char>) -> Seq<char> {
    match first_place(scientific, seq!['e'], 0) {
        None => scientific,
        Some(at) => {
            let mantissa = scientific.take(at);
            let exponent = scientific.skip(at + 1);
            let size = digits_value(unsigned_part(exponent_size(exponent)));
            if !is_usize_text(exponent_size(exponent)) {
                scientific
            } else if is_negative(exponent) && size > 4 || !is_negative(exponent) && size >= 16 {
                exponent_text(mantissa, is_negative(exponent), size)
            } else {
                positional_text(
                    mantissa_digits(mantissa),
                    if is_negative(exponent) {
                        -size
                    } else {
                        size as int
                    },
                )
            }
        },
    }
}

/// `text` followed by `n` zeros.
fn push_zeros(text: &mut String, n: usize)
    ensures
        final(text)@ == old(text)@ + zeros(n as nat),
{
    let ghost before = text@;
    let mut i: usize = 0;
    assert(text@ =~= before + zeros(0));
    while i < n
        invariant
            i <= n,
            text@ == before + zeros(i as nat),
        decreases n - i,
    {
        text.push('0');
        i = i + 1;
        assert(text@ =~= before + zeros(i as nat));
    }
}

/// The number without an exponent.
fn positional_string(mantissa: &[char], is_negative: bool, size: usize) -> (r: String)
    requires
        size < 16,
    ensures
        r@ == positional_text(
            mantissa_digits(mantissa@),
            if is_negative {
                -(size as int)
            } else {
                size as int
            },
        ),
{
    let ghost digits = mantissa_digits(mantissa@);
    let mut own: String = String::new();
    if mantissa.len() >= 2 && mantissa[1] == '.' {
        own.push(mantissa[0]);
        let rest = string_of(mantissa, 2, mantissa.len());
        own.append(rest.as_str());
    } else {
        own = string_of(mantissa, 0, mantissa.len());
    }
    assert(own@ =~= digits);
    let chars = chars_of(own.as_str());
    if is_negative && size > 0 {
        let mut r: String = String::new();
        r.push('0');
        r.push('.');
        push_zeros(&mut r, size - 1);
        r.append(own.as_str());
        assert(r@ =~= positional_text(digits, -(size as int)));
        r
    } else if chars.len() <= size + 1 {
        let mut r = copy(own.as_str());
        push_zeros(&mut r, size + 1 - chars.len());
        r.push('.');
        r.push('0');
        assert(r@ =~= positional_text(digits, size as int));
        r
    } else {
        let mut r = string_of(chars.as_slice(), 0, size + 1);
        r.push('.');
        let rest = string_of(chars.as_slice(), size + 1, chars.len());
        r.append(rest.as_str());
        assert(r@ =~= positional_text(digits, size as int));
        r
    }
}

/// The number with an exponent.
fn exponent_string(mantissa: &[char], is_negative: bool, size: usize) -> (r: String)
    ensures
        r@ == exponent_text(mantissa@, is_negative, size as nat),
{
    let mut r = string_of(mantissa, 0, mantissa.len());
    r.push('e');
    if is_negative {
        r.push('-');
    } else {
        r.push('+');
    }
    if size < 10 {
        r.push('0');
    }
    let shown = usize_string(size);
    r.append(shown.as_str());
    assert(r@ =~= exponent_text(mantissa@, is_negative, size as nat));
    r
}

/// Python's text of a number in scientific notation.
pub fn float_repr(scientific: &str) -> (r: String)
    ensures
        r@ == float_text(scientific@),
{
    let chars = chars_of(scientific);
    let mark = vec!['e'];
    assert(mark@ =~= seq!['e']);
    let at = match find(chars.as_slice(), mark.as_slice()) {
        None => {
            return copy(scientific);
        },
        Some(at) => at,
    };
    let mantissa = string_of(chars.as_slice(), 0, at);
    assert(mantissa@ =~= scientific@.take(at as int));
    let mantissa = chars_of(mantissa.as_str());
    let ghost exponent = scientific@.skip(at + 1);
    let length = chars.len();
    assert(at + 1 <= length);
    let is_negative = at + 1 < length && chars[at + 1] == '-';
    let from = if is_negative {
        at + 2
    } else {
        at + 1
    };
    let digits = string_of(chars.as_slice(), from, length);
    assert(digits@ =~= exponent_size(exponent));
    match parse_usize(digits.as_str()) {
        None => copy(scientific),
        Some(size) => if is_negative && size > 4 || !is_negative && size >= 16 {
            exponent_string(mantissa.as_slice(), is_negative, size)
        } else {
            positional_string(mantissa.as_slice(), is_negative, size)
        },
    }
}

/// Python's text of an imaginary number: that of the factor, without an empty fraction, and a `j`.
pub open spec fn imaginary_text(scientific: Seq<char>) -> Seq<char> {
    let factor = float_text(scientific);
    (if seq!['.', '0'].is_suffix_of(factor) {
        factor.take(factor.len() - 2)
    } else {
        factor
    }).push('j')
}

/// Python's text of an imaginary number whose factor is given in scientific notation.
pub fn imaginary_repr(scientific: &str) -> (r: String)
    ensures
        r@ == imaginary_text(scientific@),
{
    let factor = float_repr(scientific);
    let chars = chars_of(factor.as_str());
    let n = chars.len();
    proof {
        let fraction = seq!['.', '0'];
        if n >= 2 {
            assert(factor@.subrange(n - 2, n as int)[0] == factor@[n - 2]);
            assert(factor@.subrange(n - 2, n as int)[1] == factor@[n - 1]);
            assert(factor@[n - 2] == '.' && factor@[n - 1] == '0' ==> fraction
                =~= factor@.subrange(n - 2, n as int));
        }
    }
    let mut r = if n >= 2 && chars[n - 2] == '.' && chars[n - 1] == '0' {
        string_of(chars.as_slice(), 0, n - 2)
    } else {
        factor
    };
    r.push('j');
    assert(r@ =~= imaginary_text(scientific@));
    r
}

// ---------------------------------------------------------------------------------------------
// Integers of any size
// ---------------------------------------------------------------------------------------------
/// The number that a digit of any radix up to 16 stands for.
pub open spec fn digit_value(c: char) -> Option<nat> {
    if '0' <= c <= '9' {
        Some((c as u32 - 48) as nat)
    } else if 'a' <= c <= 'f' {
        Some((c as u32 - 87) as nat)
    } else if 'A' <= c <= 'F' {
        Some((c as u32 - 55) as nat)
    } else {
        None
    }
}

/// The number that a text of digits stands for; underscores between them count for nothing.
pub open spec fn radix_value(s: Seq<char>, radix: nat) -> nat
    decreases s.len(),
{
    if s.len() == 0 {
        0
    } else {
        let before = radix_value(s.drop_last(), radix);
        match digit_value(s.last()) {
            Some(d) => radix * before + d,
            None => before,
        }
    }
}

/// The radix of an integer literal.
pub open spec fn radix_of(literal: Seq<char>) -> nat {
    if literal.len() < 2 || literal[0] != '0' {
        10
    } else if literal[1] == 'x' || literal[1] == 'X' {
        16
    } else if literal[1] == 'o' || literal[1] == 'O' {
        8
    } else if literal[1] == 'b' || literal[1] == 'B' {
        2
    } else {
        10
    }
}

/// The number that an integer literal stands for, in decimal digits.
pub open spec fn integer_text(literal: Seq<char>) -> Seq<char> {
    let radix = radix_of(literal);
    nat_text(
        radix_value(
            if radix == 10 {
                literal
            } else {
                literal.skip(2)
            },
            radix,
        ),
    )
}

/// The number that decimal digits stand for, the last digit first.
spec fn reversed_value(digits: Seq<u8>) -> nat
    decreases digits.len(),
{
    if digits.len() == 0 {
        0
    } else {
        digits[0] as nat + 10 * reversed_value(digits.drop_first())
    }
}

/// The digits are decimal ones, the last digit first, and the first one is not zero.
spec fn are_reversed_digits(digits: Seq<u8>) -> bool {
    &&& forall|i: int| 0 <= i < digits.len() ==> #[trigger] digits[i] < 10
    &&& digits.len() > 0 ==> digits.last() > 0
}

/// Ten to the power of `n`.
spec fn tens(n: nat) -> nat
    decreases n,
{
    if n == 0 {
        1
    } else {
        10 * tens((n - 1) as nat)
    }
}

proof fn lemma_digit_in_front(digits: Seq<u8>, d: u8)
    ensures
        reversed_value(digits.push(d)) == reversed_value(digits) + tens(digits.len()) * d,
    decreases digits.len(),
{
    let all = digits.push(d);
    if digits.len() == 0 {
        assert(all.drop_first() =~= Seq::<u8>::empty());
        assert(reversed_value(all.drop_first()) == 0);
        assert(tens(0) == 1);
        assert(1 * d == d);
    } else {
        assert(all[0] == digits[0]);
        lemma_digit_in_front(digits.drop_first(), d);
        assert(all.drop_first() =~= digits.drop_first().push(d));
        let power = tens((digits.len() - 1) as nat);
        assert(tens(digits.len()) == 10 * power);
        assert(10 * (power * d) == (10 * power) * d) by (nonlinear_arith);
    }
}

/// The digits of `radix` times the number, plus `more`.
fn times_plus(digits: &[u8], radix: u8, more: u8) -> (r: Vec<u8>)
    requires
        are_reversed_digits(digits@),
        2 <= radix <= 16,
        more < 16,
    ensures
        are_reversed_digits(r@),
        reversed_value(r@) == radix * reversed_value(digits@) + more,
{
    let ghost whole = radix * reversed_value(digits@) + more;
    let mut r: Vec<u8> = Vec::new();
    let mut carry: u8 = more;
    let mut i: usize = 0;
    assert(digits@.skip(0) =~= digits@);
    assert(tens(0) * (radix * reversed_value(digits@) + carry) == whole) by {
        assert(tens(0) == 1);
    }
    while i < digits.len()
        invariant
            i <= digits@.len(),
            are_reversed_digits(digits@),
            2 <= radix <= 16,
            carry < 16,
            r@.len() == i,
            forall|j: int| 0 <= j < i ==> #[trigger] r@[j] < 10,
            i > 0 && carry == 0 && i == digits@.len() ==> r@.last() > 0,
            whole == reversed_value(r@) + tens(i as nat) * (radix * reversed_value(
                digits@.skip(i as int),
            ) + carry),
        decreases digits@.len() - i,
    {
        let d = digits[i];
        assert(d * radix <= 9 * 16 && (d > 0 ==> d * radix > 0)) by (nonlinear_arith)
            requires
                d < 10,
                2 <= radix <= 16,
        ;
        let t = d * radix + carry;
        proof {
            let rest = digits@.skip(i as int);
            let left = reversed_value(rest.drop_first());
            let power = tens(i as nat);
            let (c, k, q, m) = (carry as nat, radix as nat, (t / 10) as nat, (t % 10) as nat);
            assert(rest.drop_first() =~= digits@.skip(i + 1));
            assert(rest[0] == d);
            assert(reversed_value(rest) == d as nat + 10 * left);
            assert(power * (k * (d as nat + 10 * left) + c) == power * m + (10 * power) * (k * left
                + q)) by (nonlinear_arith)
                requires
                    d as nat * k + c == 10 * q + m,
            ;
            assert(tens((i + 1) as nat) == 10 * power);
            lemma_digit_in_front(r@, (t % 10) as u8);
        }
        r.push(t % 10);
        carry = t / 10;
        i = i + 1;
    }
    proof {
        assert(digits@.skip(i as int) =~= Seq::<u8>::empty());
        assert(reversed_value(digits@.skip(i as int)) == 0);
        assert(radix * 0 == 0);
    }
    while carry > 0
        invariant
            carry < 16,
            forall|j: int| 0 <= j < r@.len() ==> #[trigger] r@[j] < 10,
            carry == 0 && r@.len() > 0 ==> r@.last() > 0,
            whole == reversed_value(r@) + tens(r@.len()) * carry,
        decreases carry,
    {
        proof {
            let power = tens(r@.len());
            let (c, q, m) = (carry as nat, (carry / 10) as nat, (carry % 10) as nat);
            assert(power * c == power * m + (10 * power) * q) by (nonlinear_arith)
                requires
                    c == 10 * q + m,
            ;
            assert(tens(r@.len() + 1) == 10 * power);
            lemma_digit_in_front(r@, (carry % 10) as u8);
        }
        r.push(carry % 10);
        carry = carry / 10;
    }
    r
}

proof fn lemma_reversed_digits_are_the_number(digits: Seq<u8>)
    requires
        digits.len() > 0,
        are_reversed_digits(digits),
    ensures
        reversed_value(digits) > 0,
        nat_text(reversed_value(digits)) == Seq::new(
            digits.len(),
            |i: int| digit(digits[digits.len() - 1 - i] as nat),
        ),
    decreases digits.len(),
{
    let rest = digits.drop_first();
    let text = Seq::new(digits.len(), |i: int| digit(digits[digits.len() - 1 - i] as nat));
    assert(digits.last() == digits[digits.len() - 1]);
    if digits.len() == 1 {
        assert(reversed_value(rest) == 0);
        assert(nat_text(digits[0] as nat) =~= text);
    } else {
        assert forall|i: int| 0 <= i < rest.len() implies #[trigger] rest[i] < 10 by {
            assert(rest[i] == digits[i + 1]);
        }
        assert(rest.last() == digits.last());
        lemma_reversed_digits_are_the_number(rest);
        let n = reversed_value(digits);
        assert(n / 10 == reversed_value(rest) && n % 10 == digits[0]);
        assert(nat_text(n) =~= text) by {
            assert(nat_text(n) == nat_text(n / 10).push(digit(n % 10)));
        }
    }
}

/// The number that an integer literal of any size stands for, in decimal digits.
pub fn integer_repr(literal: &str) -> (r: String)
    ensures
        r@ == integer_text(literal@),
{
    let chars = chars_of(literal);
    let n = chars.len();
    let radix: u8 = if n < 2 || chars[0] != '0' {
        10
    } else if chars[1] == 'x' || chars[1] == 'X' {
        16
    } else if chars[1] == 'o' || chars[1] == 'O' {
        8
    } else if chars[1] == 'b' || chars[1] == 'B' {
        2
    } else {
        10
    };
    let start: usize = if radix == 10 {
        0
    } else {
        2
    };
    let ghost text = if radix == 10 {
        literal@
    } else {
        literal@.skip(2)
    };
    assert(text =~= literal@.skip(start as int));
    let mut digits: Vec<u8> = Vec::new();
    let mut i: usize = start;
    assert(text.take(0) =~= Seq::<char>::empty());
    while i < n
        invariant
            n == chars@.len(),
            chars@ == literal@,
            start <= i <= n,
            text == literal@.skip(start as int),
            2 <= radix <= 16,
            are_reversed_digits(digits@),
            reversed_value(digits@) == radix_value(text.take(i - start), radix as nat),
        decreases n - i,
    {
        let c = chars[i];
        proof {
            assert(text[i - start] == c);
            assert(text.take(i + 1 - start).drop_last() =~= text.take(i - start));
            assert(text.take(i + 1 - start).last() == c);
        }
        if '0' <= c && c <= '9' {
            digits = times_plus(digits.as_slice(), radix, (c as u32 - 48) as u8);
        } else if 'a' <= c && c <= 'f' {
            digits = times_plus(digits.as_slice(), radix, (c as u32 - 87) as u8);
        } else if 'A' <= c && c <= 'F' {
            digits = times_plus(digits.as_slice(), radix, (c as u32 - 55) as u8);
        }
        i = i + 1;
    }
    assert(text.take(n - start) =~= text);
    if digits.len() == 0 {
        let zero = copy("0");
        proof {
            reveal_strlit("0");
            assert("0"@ =~= nat_text(0));
        }
        return zero;
    }
    proof {
        lemma_reversed_digits_are_the_number(digits@);
    }
    let mut r = String::new();
    let mut k: usize = digits.len();
    let ghost whole = nat_text(reversed_value(digits@));
    assert(r@ =~= whole.take(0));
    while k > 0
        invariant
            k <= digits@.len(),
            are_reversed_digits(digits@),
            whole == Seq::new(
                digits@.len(),
                |i: int| digit(digits@[digits@.len() - 1 - i] as nat),
            ),
            r@ == whole.take(digits@.len() - k),
        decreases k,
    {
        k = k - 1;
        let d = digits[k];
        let c = (48 + d) as char;
        assert(c == digit(d as nat));
        assert(whole[digits@.len() - 1 - k] == c);
        r.push(c);
        assert(r@ =~= whole.take(digits@.len() - k));
    }
    assert(whole.take(digits@.len() as int) =~= whole);
    r
}

// ---------------------------------------------------------------------------------------------
// What the texts stand for
// ---------------------------------------------------------------------------------------------
/// Each digit of an integer literal counts, the last least; underscores do not count.
pub proof fn lemma_digits_count(s: Seq<char>, c: char, radix: nat)
    ensures
        '0' <= c <= '9' ==> radix_value(s.push(c), radix) == radix * radix_value(s, radix) + (
        c as u32 - '0' as u32),
        'a' <= c <= 'f' ==> radix_value(s.push(c), radix) == radix * radix_value(s, radix) + 10 + (
        c as u32 - 'a' as u32),
        'A' <= c <= 'F' ==> radix_value(s.push(c), radix) == radix * radix_value(s, radix) + 10 + (
        c as u32 - 'A' as u32),
        c == '_' ==> radix_value(s.push(c), radix) == radix_value(s, radix),
        radix_value(seq![], radix) == 0,
{
    assert(s.push(c).drop_last() =~= s);
}

/// The text of an integer literal stands for the number that the literal stands for: `0x`, `0o` and
/// `0b` tell the radix, and without them it is ten.
pub proof fn lemma_integer_is_read_back(digits: Seq<char>)
    ensures
        digits_value(integer_text(seq!['0', 'x'] + digits)) == radix_value(digits, 16),
        digits_value(integer_text(seq!['0', 'X'] + digits)) == radix_value(digits, 16),
        digits_value(integer_text(seq!['0', 'o'] + digits)) == radix_value(digits, 8),
        digits_value(integer_text(seq!['0', 'O'] + digits)) == radix_value(digits, 8),
        digits_value(integer_text(seq!['0', 'b'] + digits)) == radix_value(digits, 2),
        digits_value(integer_text(seq!['0', 'B'] + digits)) == radix_value(digits, 2),
        digits.len() > 0 && '1' <= digits[0] <= '9' ==> digits_value(integer_text(digits))
            == radix_value(digits, 10),
{
    assert((seq!['0', 'x'] + digits).skip(2) =~= digits);
    assert((seq!['0', 'X'] + digits).skip(2) =~= digits);
    assert((seq!['0', 'o'] + digits).skip(2) =~= digits);
    assert((seq!['0', 'O'] + digits).skip(2) =~= digits);
    assert((seq!['0', 'b'] + digits).skip(2) =~= digits);
    assert((seq!['0', 'B'] + digits).skip(2) =~= digits);
    lemma_digits_of_number(radix_value(digits, 16));
    lemma_digits_of_number(radix_value(digits, 8));
    lemma_digits_of_number(radix_value(digits, 2));
    lemma_digits_of_number(radix_value(digits, 10));
}

/// A decimal literal is its own text, where it has no underscores and no zeros in front.
pub proof fn lemma_decimal_stays(n: nat)
    ensures
        integer_text(nat_text(n)) == nat_text(n),
{
    let s = nat_text(n);
    lemma_digits_of_number(n);
    lemma_decimal_value(s);
    assert(is_digit(s[0]));
    if s.len() >= 2 {
        assert(is_digit(s[1]));
    }
}

proof fn lemma_decimal_value(s: Seq<char>)
    requires
        all_digits(s),
    ensures
        radix_value(s, 10) == digits_value(s),
    decreases s.len(),
{
    if s.len() > 0 {
        let front = s.drop_last();
        assert forall|i: int| 0 <= i < front.len() implies is_digit(
            #[trigger] front[i],
        ) by {
            assert(front[i] == s[i]);
        }
        assert(is_digit(s[s.len() - 1]));
        lemma_decimal_value(front);
    }
}

/// The text of a float without an exponent: its digits, without the point and the zeros at both
/// ends that were added, are those of the number, and the point stands where the exponent puts it.
pub proof fn lemma_point_is_put(digits: Seq<char>, exponent: int)
    requires
        digits.len() > 0,
    ensures
        ({
            let text = positional_text(digits, exponent);
            let n = digits.len() as int;
            &&& exponent < 0 ==> {
                &&& text.len() == 1 - exponent + n
                &&& text[0] == '0' && text[1] == '.'
                &&& forall|i: int| 2 <= i < 1 - exponent ==> #[trigger] text[i] == '0'
                &&& text.skip(1 - exponent) == digits
            }
            &&& 0 <= exponent < n - 1 ==> {
                &&& text[exponent + 1] == '.'
                &&& text.take(exponent + 1) == digits.take(exponent + 1)
                &&& text.skip(exponent + 2) == digits.skip(exponent + 1)
            }
            &&& n - 1 <= exponent ==> {
                &&& text.len() == exponent + 3
                &&& text.take(n) == digits
                &&& forall|i: int| n <= i <= exponent ==> #[trigger] text[i] == '0'
                &&& text[exponent + 1] == '.' && text[exponent + 2] == '0'
            }
        }),
{
    let text = positional_text(digits, exponent);
    let n = digits.len() as int;
    if exponent < 0 {
        assert(text.skip(1 - exponent) =~= digits);
    } else if exponent < n - 1 {
        assert(text.take(exponent + 1) =~= digits.take(exponent + 1));
        assert(text.skip(exponent + 2) =~= digits.skip(exponent + 1));
    } else {
        assert(text.take(n) =~= digits);
    }
}

/// A float is written without an exponent from `0.0001` up to, and not with, `1e16`, and with one
/// below and above: `size` is that of its exponent in scientific notation.
pub proof fn lemma_when_exponents_are_written(mantissa: Seq<char>, size: nat)
    requires
        !mantissa.contains('e'),
        size <= usize::MAX,
    ensures
        size < 16 ==> float_text(mantissa + seq!['e'] + nat_text(size)) == positional_text(
            mantissa_digits(mantissa),
            size as int,
        ),
        size >= 16 ==> float_text(mantissa + seq!['e'] + nat_text(size)) == mantissa + seq!['e', '+']
            + nat_text(size),
        1 <= size <= 4 ==> float_text(mantissa + seq!['e', '-'] + nat_text(size))
            == positional_text(mantissa_digits(mantissa), -(size as int)),
        10 <= size ==> float_text(mantissa + seq!['e', '-'] + nat_text(size)) == mantissa + seq![
            'e',
            '-',
        ] + nat_text(size),
        5 <= size < 10 ==> float_text(mantissa + seq!['e', '-'] + nat_text(size)) == mantissa
            + seq!['e', '-', '0'] + nat_text(size),
{
    let digits = nat_text(size);
    let e = seq!['e'];
    let n = mantissa.len() as int;
    lemma_digits_of_number(size);
    lemma_number_is_read_back(size as usize);
    assert(is_digit(digits[0]));
    let plain = mantissa + seq!['e'] + digits;
    let minus = mantissa + seq!['e', '-'] + digits;
    lemma_place_of_exponent(mantissa, digits);
    lemma_place_of_exponent(mantissa, seq!['-'] + digits);
    assert(minus =~= mantissa + e + (seq!['-'] + digits));
    assert(plain.take(n) =~= mantissa);
    assert(plain.skip(n + 1) =~= digits);
    assert(minus.take(n) =~= mantissa);
    assert(minus.skip(n + 1) =~= seq!['-'] + digits);
    assert((seq!['-'] + digits).drop_first() =~= digits);
    if size >= 16 {
        assert(exponent_text(mantissa, false, size) =~= mantissa + seq!['e', '+'] + digits);
    }
    if size >= 10 {
        assert(exponent_text(mantissa, true, size) =~= mantissa + seq!['e', '-'] + digits);
    } else if size >= 5 {
        assert(exponent_text(mantissa, true, size) =~= mantissa + seq!['e', '-', '0'] + digits);
    }
}

proof fn lemma_place_of_exponent(mantissa: Seq<char>, rest: Seq<char>)
    requires
        !mantissa.contains('e'),
    ensures
        first_place(mantissa + seq!['e'] + rest, seq!['e'], 0) == Some(mantissa.len() as int),
{
    let s = mantissa + seq!['e'] + rest;
    let n = mantissa.len() as int;
    assert(s.subrange(n, n + 1) =~= seq!['e']);
    assert forall|j: int| 0 <= j < n implies !stands_at(s, seq!['e'], j) by {
        if stands_at(s, seq!['e'], j) {
            assert(s.subrange(j, j + 1)[0] == s[j]);
            assert(mantissa[j] == 'e');
        }
    }
    lemma_first_place_is_first(s, seq!['e'], 0, n);
}

} // verus!
