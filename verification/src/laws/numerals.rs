//! Counts written and read.
use crate::text::{
    all_digits, counted, decimal, digit_char, digits_text, is_digit, padded_text, unsigned_part,
};
use vstd::prelude::*;

verus! {

proof fn lemma_digits(k: int)
    requires
        0 <= k,
    ensures
        digits_text(k).len() > 0,
        all_digits(digits_text(k)),
        decimal(digits_text(k)) == k,
    decreases k,
{
    let s = digits_text(k);
    let d = digit_char(k % 10);
    assert(is_digit(d));
    assert(s.last() == d);
    if k < 10 {
        assert(s.drop_last() =~= Seq::<char>::empty());
        assert(decimal(s.drop_last()) == 0);
    } else {
        lemma_digits(k / 10);
        assert(s.drop_last() =~= digits_text(k / 10));
    }
    assert forall|i: int| 0 <= i < s.len() implies is_digit(#[trigger] s[i]) by {
        if i < s.len() - 1 {
            assert(s[i] == digits_text(k / 10)[i]);
        }
    }
}

/// A count that was written is read back, with or without a plus sign before it, if a
/// machine can count so far. A larger one is not.
pub proof fn law_count_comes_back(k: int)
    requires
        0 <= k,
    ensures
        k <= usize::MAX ==> counted(digits_text(k)) == Some(k as usize),
        k <= usize::MAX ==> counted(seq!['+'] + digits_text(k)) == Some(k as usize),
        k > usize::MAX ==> counted(digits_text(k)) is None,
{
    let s = digits_text(k);
    lemma_digits(k);
    assert(is_digit(s[0]));
    let signed = seq!['+'] + s;
    assert(unsigned_part(signed) =~= s);
}

/// A text is no count where anything but a digit follows the sign that it may start with, or
/// nothing does.
pub proof fn law_no_count(s: Seq<char>, i: int)
    ensures
        0 <= i < s.len() && !('0' <= s[i] <= '9') && !(i == 0 && s[i] == '+') ==> counted(s) is None,
        s.len() == 0 ==> counted(s) is None,
        s.len() == 1 && s[0] == '+' ==> counted(s) is None,
{
    if 0 <= i < s.len() && !('0' <= s[i] <= '9') && !(i == 0 && s[i] == '+') {
        let d = unsigned_part(s);
        if s[0] == '+' {
            assert(d[i - 1] == s[i]);
        } else {
            assert(d[i] == s[i]);
        }
    }
}

proof fn lemma_padded(k: int, width: int)
    requires
        0 <= k,
        0 <= width,
    ensures
        padded_text(k, width).len() == width,
        all_digits(padded_text(k, width)),
    decreases width,
{
    if width > 0 {
        lemma_padded(k / 10, width - 1);
        let s = padded_text(k, width);
        assert(is_digit(digit_char(k % 10)));
        assert forall|i: int| 0 <= i < s.len() implies is_digit(#[trigger] s[i]) by {
            if i < s.len() - 1 {
                assert(s[i] == padded_text(k / 10, width - 1)[i]);
            }
        }
    }
}

/// The number of a frame padded to `width` places has that many digits, and one more place
/// shows the digit before them.
pub proof fn law_padded(k: int, width: int)
    requires
        0 <= k,
        0 <= width,
    ensures
        padded_text(k, width).len() == width,
        all_digits(padded_text(k, width)),
        0 < width ==> decimal(padded_text(k, width)) == 10 * decimal(
            padded_text(k / 10, width - 1),
        ) + k % 10,
        width == 0 ==> decimal(padded_text(k, width)) == 0,
{
    lemma_padded(k, width);
    if width > 0 {
        assert(padded_text(k, width).drop_last() =~= padded_text(k / 10, width - 1));
    }
}

} // verus!
