use crate::text::Span;
use vstd::prelude::*;

verus! {

/// The ten decimal digits.
pub open spec fn is_digit(c: char) -> bool {
    '0' <= c <= '9'
}

/// The number that a decimal digit stands for.
pub open spec fn digit_value(c: char) -> nat {
    (c as u32 - '0' as u32) as nat
}

/// The number that a row of decimal digits writes.
pub open spec fn digits_value(s: Seq<char>) -> nat
    decreases s.len(),
{
    if s.len() == 0 {
        0
    } else {
        digits_value(s.drop_last()) * 10 + digit_value(s.last())
    }
}

/// Every character is a decimal digit.
pub open spec fn all_digits(s: Seq<char>) -> bool {
    forall|i: int| 0 <= i < s.len() ==> is_digit(#[trigger] s[i])
}

/// A word without the one `+` that may lead it.
pub open spec fn unsigned_part(word: Seq<char>) -> Seq<char> {
    if word.len() > 0 && word[0] == '+' {
        word.subrange(1, word.len() as int)
    } else {
        word
    }
}

/// The count that a word writes: decimal digits, at least one, after an
/// optional `+`, with a value that fits the machine word.
pub open spec fn count_of(word: Seq<char>) -> Option<usize> {
    let digits = unsigned_part(word);
    if digits.len() > 0 && all_digits(digits) && digits_value(digits) <= usize::MAX {
        Some(digits_value(digits) as usize)
    } else {
        None
    }
}

/// A row of digits writes no smaller a number than any of its beginnings.
pub proof fn lemma_digits_value_grows(s: Seq<char>, k: int)
    requires
        0 <= k <= s.len(),
    ensures
        digits_value(s.take(k)) <= digits_value(s),
    decreases s.len() - k,
{
    if k < s.len() {
        lemma_digits_value_grows(s, k + 1);
        assert(s.take(k + 1).drop_last() =~= s.take(k));
    } else {
        assert(s.take(k) =~= s);
    }
}

fn digit_of(c: char) -> (d: Option<u8>)
    ensures
        d is Some <==> is_digit(c),
        d matches Some(v) ==> v == digit_value(c) && v <= 9,
{
    let u: u32 = c as u32;
    if 0x30 <= u && u <= 0x39 {
        Some((u - 0x30) as u8)
    } else {
        None
    }
}

/// Reads the count that the word at `word` writes.
pub fn parse_count(text: &Vec<char>, word: Span) -> (count: Option<usize>)
    requires
        word.within(text@.len()),
    ensures
        count == count_of(word.of(text@)),
{
    let ghost w = word.of(text@);
    let mut i: usize = word.start;
    if i < word.end && text[i] == '+' {
        i += 1;
    }
    let first: usize = i;
    let ghost digits = text@.subrange(first as int, word.end as int);
    assert(digits =~= unsigned_part(w));
    if first == word.end {
        return None;
    }
    let mut value: usize = 0;
    while i < word.end
        invariant
            first <= i <= word.end <= text.len(),
            digits == text@.subrange(first as int, word.end as int),
            digits == unsigned_part(w),
            w == word.of(text@),
            all_digits(digits.take(i - first)),
            value == digits_value(digits.take(i - first)),
        decreases word.end - i,
    {
        let ghost k = i - first;
        proof {
            assert(digits.take(k + 1).drop_last() =~= digits.take(k));
            assert(digits.take(k + 1).last() == text@[i as int]);
        }
        match digit_of(text[i]) {
            None => {
                assert(!is_digit(digits[k]));
                assert(!all_digits(digits));
                return None;
            },
            Some(d) => {
                if value > (usize::MAX - d as usize) / 10 {
                    proof {
                        lemma_digits_value_grows(digits, k + 1);
                        assert(digits_value(digits.take(k + 1)) == value * 10 + d);
                        assert(digits_value(digits) > usize::MAX);
                    }
                    return None;
                }
                value = value * 10 + d as usize;
                assert forall|j: int| 0 <= j < k + 1 implies is_digit(
                    #[trigger] digits.take(k + 1)[j],
                ) by {
                    if j < k {
                        assert(digits.take(k)[j] == digits.take(k + 1)[j]);
                    }
                }
            },
        }
        i += 1;
    }
    assert(digits.take(i - first) =~= digits);
    Some(value)
}

/// A word without the one sign that may lead it.
pub open spec fn after_sign(word: Seq<char>) -> Seq<char> {
    if word.len() > 0 && (word[0] == '+' || word[0] == '-') {
        word.subrange(1, word.len() as int)
    } else {
        word
    }
}

/// The first position at or after `from` that holds no digit.
pub open spec fn digits_end(s: Seq<char>, from: int) -> int
    decreases s.len() - from,
{
    if from < 0 || from >= s.len() || !is_digit(s[from]) {
        from
    } else {
        digits_end(s, from + 1)
    }
}

/// `inf`, `infinity` or `nan`, in any mix of cases.
pub open spec fn is_special(s: Seq<char>) -> bool {
    ||| s.len() == 3 && letter(s[0], 'i', 'I') && letter(s[1], 'n', 'N') && letter(s[2], 'f', 'F')
    ||| s.len() == 3 && letter(s[0], 'n', 'N') && letter(s[1], 'a', 'A') && letter(s[2], 'n', 'N')
    ||| s.len() == 8 && letter(s[0], 'i', 'I') && letter(s[1], 'n', 'N') && letter(s[2], 'f', 'F')
        && letter(s[3], 'i', 'I') && letter(s[4], 'n', 'N') && letter(s[5], 'i', 'I') && letter(
        s[6],
        't',
        'T',
    ) && letter(s[7], 'y', 'Y')
}

/// The character is one letter, small or capital.
pub open spec fn letter(c: char, small: char, capital: char) -> bool {
    c == small || c == capital
}

/// An exponent from position `at` to the end: `e` or `E`, an optional sign and
/// at least one digit.
pub open spec fn is_exponent(s: Seq<char>, at: int) -> bool {
    let signed = at + 1 < s.len() && (s[at + 1] == '+' || s[at + 1] == '-');
    let first = if signed {
        at + 2
    } else {
        at + 1
    };
    &&& 0 <= at < s.len()
    &&& letter(s[at], 'e', 'E')
    &&& first < digits_end(s, first)
    &&& digits_end(s, first) == s.len()
}

/// Digits with an optional point among them and an optional exponent behind
/// them; at least one digit stands before the exponent.
pub open spec fn is_decimal(s: Seq<char>) -> bool {
    let whole = digits_end(s, 0);
    let pointed = whole < s.len() && s[whole] == '.';
    let mantissa = if pointed {
        digits_end(s, whole + 1)
    } else {
        whole
    };
    let digits = if pointed {
        mantissa - 1
    } else {
        mantissa
    };
    &&& digits > 0
    &&& mantissa == s.len() || is_exponent(s, mantissa)
}

/// The words that write a number: after an optional sign, either a decimal
/// number or one of the words for an infinity or for no number.
pub open spec fn is_number(word: Seq<char>) -> bool {
    is_special(after_sign(word)) || is_decimal(after_sign(word))
}

fn is_letter(c: char, small: char, capital: char) -> (b: bool)
    ensures
        b == letter(c, small, capital),
{
    c == small || c == capital
}

fn find_digits_end(text: &Vec<char>, from: usize, to: usize, Ghost(base): Ghost<int>) -> (at:
    usize)
    requires
        0 <= base <= from <= to <= text.len(),
    ensures
        from <= at <= to,
        at - base == digits_end(text@.subrange(base, to as int), from - base),
{
    let ghost s = text@.subrange(base, to as int);
    let mut i: usize = from;
    while i < to
        invariant
            0 <= base <= from <= i <= to <= text.len(),
            s == text@.subrange(base, to as int),
            digits_end(s, i - base) == digits_end(s, from - base),
        decreases to - i,
    {
        assert(s[i - base] == text@[i as int]);
        if digit_of(text[i]).is_none() {
            return i;
        }
        i += 1;
    }
    i
}

fn check_special(text: &Vec<char>, from: usize, to: usize) -> (ok: bool)
    requires
        from <= to <= text.len(),
    ensures
        ok == is_special(text@.subrange(from as int, to as int)),
{
    let ghost s = text@.subrange(from as int, to as int);
    assert(forall|j: int| 0 <= j < s.len() ==> s[j] == text@[from + j]);
    let n: usize = to - from;
    if n == 3 {
        let inf = is_letter(text[from], 'i', 'I') && is_letter(text[from + 1], 'n', 'N')
            && is_letter(text[from + 2], 'f', 'F');
        let nan = is_letter(text[from], 'n', 'N') && is_letter(text[from + 1], 'a', 'A')
            && is_letter(text[from + 2], 'n', 'N');
        inf || nan
    } else if n == 8 {
        is_letter(text[from], 'i', 'I') && is_letter(text[from + 1], 'n', 'N') && is_letter(
            text[from + 2],
            'f',
            'F',
        ) && is_letter(text[from + 3], 'i', 'I') && is_letter(text[from + 4], 'n', 'N')
            && is_letter(text[from + 5], 'i', 'I') && is_letter(text[from + 6], 't', 'T')
            && is_letter(text[from + 7], 'y', 'Y')
    } else {
        false
    }
}

fn check_exponent(text: &Vec<char>, from: usize, at: usize, to: usize) -> (ok: bool)
    requires
        from <= at < to <= text.len(),
    ensures
        ok == is_exponent(text@.subrange(from as int, to as int), at - from),
{
    let ghost s = text@.subrange(from as int, to as int);
    assert(forall|j: int| 0 <= j < s.len() ==> s[j] == text@[from + j]);
    if !is_letter(text[at], 'e', 'E') {
        return false;
    }
    let signed = at + 1 < to && (text[at + 1] == '+' || text[at + 1] == '-');
    let first: usize = if signed {
        at + 2
    } else {
        at + 1
    };
    let last = find_digits_end(text, first, to, Ghost(from as int));
    first < last && last == to
}

fn check_decimal(text: &Vec<char>, from: usize, to: usize) -> (ok: bool)
    requires
        from <= to <= text.len(),
    ensures
        ok == is_decimal(text@.subrange(from as int, to as int)),
{
    let ghost s = text@.subrange(from as int, to as int);
    assert(forall|j: int| 0 <= j < s.len() ==> s[j] == text@[from + j]);
    let whole = find_digits_end(text, from, to, Ghost(from as int));
    let pointed = whole < to && text[whole] == '.';
    let mantissa = if pointed {
        find_digits_end(text, whole + 1, to, Ghost(from as int))
    } else {
        whole
    };
    let digits: usize = if pointed {
        mantissa - from - 1
    } else {
        mantissa - from
    };
    if digits == 0 {
        return false;
    }
    if mantissa == to {
        return true;
    }
    check_exponent(text, from, mantissa, to)
}

/// Tells whether the word at `word` writes a number.
pub fn check_number(text: &Vec<char>, word: Span) -> (ok: bool)
    requires
        word.within(text@.len()),
    ensures
        ok == is_number(word.of(text@)),
{
    let to: usize = word.end;
    let mut from: usize = word.start;
    if from < to && (text[from] == '+' || text[from] == '-') {
        from += 1;
    }
    assert(text@.subrange(from as int, to as int) =~= after_sign(word.of(text@)));
    check_special(text, from, to) || check_decimal(text, from, to)
}

} // verus!
