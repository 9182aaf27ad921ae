//! Counts read from text, and numbers written as text.
use vstd::prelude::*;

verus! {

pub open spec fn is_digit(c: char) -> bool {
    '0' <= c <= '9'
}

pub open spec fn digit_of(c: char) -> int {
    c as int - '0' as int
}

pub open spec fn all_digits(s: Seq<char>) -> bool {
    forall|k: int| 0 <= k < s.len() ==> is_digit(#[trigger] s[k])
}

/// The number that a row of decimal digits denotes.
pub open spec fn decimal(s: Seq<char>) -> int
    decreases s.len(),
{
    if s.len() == 0 {
        0
    } else {
        10 * decimal(s.drop_last()) + digit_of(s.last())
    }
}

/// A text without the plus sign that it may start with.
pub open spec fn unsigned_part(s: Seq<char>) -> Seq<char> {
    if s.len() > 0 && s[0] == '+' {
        s.skip(1)
    } else {
        s
    }
}

/// The count that a text denotes: an optional plus sign, then one or more decimal
/// digits and nothing else, with a value that a `usize` can hold.
pub open spec fn counted(s: Seq<char>) -> Option<usize> {
    let digits = unsigned_part(s);
    if digits.len() > 0 && all_digits(digits) && decimal(digits) <= usize::MAX {
        Some(decimal(digits) as usize)
    } else {
        None
    }
}

proof fn lemma_decimal_grows(s: Seq<char>, k: int)
    requires
        0 <= k <= s.len(),
        all_digits(s),
    ensures
        0 <= decimal(s.take(k)) <= decimal(s),
    decreases s.len() - k,
{
    if k < s.len() {
        lemma_decimal_grows(s, k + 1);
        assert(s.take(k + 1).drop_last() =~= s.take(k));
        assert(s.take(k + 1).last() == s[k]);
        lemma_decimal_nonnegative(s.take(k));
    } else {
        assert(s.take(k) =~= s);
        lemma_decimal_nonnegative(s);
    }
}

proof fn lemma_decimal_nonnegative(s: Seq<char>)
    requires
        all_digits(s),
    ensures
        0 <= decimal(s),
    decreases s.len(),
{
    if s.len() > 0 {
        lemma_decimal_nonnegative(s.drop_last());
        assert(is_digit(s.last()));
    }
}

pub fn parse_count(text: &String) -> (r: Option<usize>)
    ensures
        r == counted(text@),
{
    let s = text.as_str();
    let len: usize = s.unicode_len();
    let start: usize = if len > 0 && s.get_char(0) == '+' {
        1
    } else {
        0
    };
    if start == len {
        return None;
    }
    let ghost digits = unsigned_part(text@);
    assert(digits =~= text@.skip(start as int));
    let mut value: usize = 0;
    let mut k: usize = start;
    while k < len
        invariant
            s@ == text@,
            len == s@.len(),
            start <= k <= len,
            start < len,
            digits == unsigned_part(text@),
            digits == text@.skip(start as int),
            all_digits(digits.take(k - start)),
            value == decimal(digits.take(k - start)),
        decreases len - k,
    {
        let c = s.get_char(k);
        if c < '0' || c > '9' {
            assert(digits[k - start] == c);
            return None;
        }
        let d: usize = c as usize - '0' as usize;
        let ghost before = digits.take(k - start);
        let ghost after = digits.take(k + 1 - start);
        proof {
            assert(after.drop_last() =~= before);
            assert(after.last() == c);
            assert forall|i: int| 0 <= i < after.len() implies is_digit(#[trigger] after[i]) by {
                if i < before.len() {
                    assert(after[i] == before[i]);
                }
            }
            assert(decimal(after) == 10 * value + d);
            if all_digits(digits) {
                lemma_decimal_grows(digits, k + 1 - start);
            }
        }
        let tens: usize = match value.checked_mul(10) {
            Some(v) => v,
            None => {
                return None;
            },
        };
        value = match tens.checked_add(d) {
            Some(v) => v,
            None => {
                return None;
            },
        };
        k = k + 1;
    }
    assert(digits.take(len - start) =~= digits);
    Some(value)
}

/// Whether a text reads exactly as `word`.
pub fn reads(text: &String, word: &str) -> (r: bool)
    ensures
        r == (text@ == word@),
{
    *text == word.to_owned()
}

/// The digit of a number below ten.
pub open spec fn digit_char(d: int) -> char {
    ('0' as int + d) as char
}

/// A count in decimal digits.
pub open spec fn digits_text(k: int) -> Seq<char>
    decreases k,
{
    if k < 10 {
        seq![digit_char(k)]
    } else {
        digits_text(k / 10).push(digit_char(k % 10))
    }
}

/// The lowest `width` decimal digits of a count.
pub open spec fn padded_text(k: int, width: int) -> Seq<char>
    decreases width,
{
    if width <= 0 {
        Seq::empty()
    } else {
        padded_text(k / 10, width - 1).push(digit_char(k % 10))
    }
}

/// An integer in decimal digits.
pub open spec fn signed_text(k: int) -> Seq<char> {
    if k < 0 {
        "-"@ + digits_text(-k)
    } else {
        digits_text(k)
    }
}

/// An integer in decimal digits, two at least.
pub open spec fn two_digits(k: int) -> Seq<char> {
    if 0 <= k < 10 {
        "0"@ + digits_text(k)
    } else {
        signed_text(k)
    }
}

fn digit_text(d: u128) -> (r: &'static str)
    requires
        d < 10,
    ensures
        r@ == seq![digit_char(d as int)],
{
    proof {
        reveal_strlit("0");
        reveal_strlit("1");
        reveal_strlit("2");
        reveal_strlit("3");
        reveal_strlit("4");
        reveal_strlit("5");
        reveal_strlit("6");
        reveal_strlit("7");
        reveal_strlit("8");
        reveal_strlit("9");
    }
    if d == 0 {
        "0"
    } else if d == 1 {
        "1"
    } else if d == 2 {
        "2"
    } else if d == 3 {
        "3"
    } else if d == 4 {
        "4"
    } else if d == 5 {
        "5"
    } else if d == 6 {
        "6"
    } else if d == 7 {
        "7"
    } else if d == 8 {
        "8"
    } else {
        "9"
    }
}

/// Writes a count.
pub fn write_count(k: u128) -> (r: String)
    ensures
        r@ == digits_text(k as int),
    decreases k,
{
    if k < 10 {
        digit_text(k).to_owned()
    } else {
        let head: String = write_count(k / 10);
        let all: String = head.concat(digit_text(k % 10));
        assert(all@ =~= digits_text(k as int));
        all
    }
}

/// Writes the lowest `width` digits of a count.
pub fn write_padded(k: u128, width: usize) -> (r: String)
    ensures
        r@ == padded_text(k as int, width as int),
    decreases width,
{
    if width == 0 {
        String::new()
    } else {
        let head: String = write_padded(k / 10, width - 1);
        let all: String = head.concat(digit_text(k % 10));
        assert(all@ =~= padded_text(k as int, width as int));
        all
    }
}

/// Writes an integer.
pub fn write_signed(k: i32) -> (r: String)
    ensures
        r@ == signed_text(k as int),
{
    if k < 0 {
        let size: u128 = (-(k as i128)) as u128;
        let digits: String = write_count(size);
        "-".to_owned().concat(digits.as_str())
    } else {
        write_count(k as u128)
    }
}

/// Writes an integer with two digits at least.
pub fn write_two_digits(k: i32) -> (r: String)
    ensures
        r@ == two_digits(k as int),
{
    if 0 <= k && k < 10 {
        let digits: String = write_count(k as u128);
        "0".to_owned().concat(digits.as_str())
    } else {
        write_signed(k)
    }
}

} // verus!
