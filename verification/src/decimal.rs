//! Numbers written in decimal digits.

use vstd::prelude::*;
use vstd::string::StrSliceExecFns;

verus! {

/// `c` is one of the ten decimal digits.
pub open spec fn is_digit(c: char) -> bool {
    '0' <= c <= '9'
}

/// Every character of `text` is a decimal digit.
pub open spec fn all_digits(text: Seq<char>) -> bool {
    forall|i: int| 0 <= i < text.len() ==> is_digit(#[trigger] text[i])
}

/// The number that the decimal digits `digits` write.
pub open spec fn value_of(digits: Seq<char>) -> int
    decreases digits.len(),
{
    if digits.len() == 0 {
        0
    } else {
        value_of(digits.drop_last()) * 10 + (digits.last() as u32 - '0' as u32)
    }
}

/// The number that `digits` write, where they are one decimal digit or
/// more, nothing else, and write no more than `most`.
pub open spec fn number_of(digits: Seq<char>, most: int) -> Option<int> {
    if digits.len() > 0 && all_digits(digits) && value_of(digits) <= most {
        Some(value_of(digits))
    } else {
        None
    }
}

/// The value of digits only grows as more digits follow.
pub proof fn lemma_value_grows(digits: Seq<char>, k: int)
    requires
        all_digits(digits),
        0 <= k <= digits.len(),
    ensures
        0 <= value_of(digits.take(k)) <= value_of(digits),
    decreases digits.len() - k,
{
    if k == digits.len() {
        assert(digits.take(k) =~= digits);
        lemma_value_bounds(digits);
    } else {
        lemma_value_grows(digits, k + 1);
        let longer = digits.take(k + 1);
        assert(longer.drop_last() =~= digits.take(k));
        assert(is_digit(digits[k]));
        assert(longer.last() == digits[k]);
        lemma_value_bounds(digits.take(k));
    }
}

/// Digits write a number that is not negative.
pub proof fn lemma_value_bounds(digits: Seq<char>)
    requires
        all_digits(digits),
    ensures
        0 <= value_of(digits),
    decreases digits.len(),
{
    if digits.len() > 0 {
        assert(is_digit(digits.last()));
        assert forall|i: int| 0 <= i < digits.drop_last().len() implies is_digit(
            #[trigger] digits.drop_last()[i],
        ) by {
            assert(digits.drop_last()[i] == digits[i]);
        }
        lemma_value_bounds(digits.drop_last());
    }
}

/// What reading `text` from its character `start` on gives: the number
/// that the rest writes, where there is a rest and it writes one of at most
/// `most`.
pub open spec fn number_from(text: Seq<char>, start: int, most: int) -> Option<int> {
    if 0 <= start <= text.len() {
        number_of(text.skip(start), most)
    } else {
        None
    }
}

/// Reads the digits of `raw` from its character `start` to its end.
pub fn read_digits(raw: &str, start: usize, most: u64) -> (r: Option<u64>)
    ensures
        match number_from(raw@, start as int, most as int) {
            Some(value) => r == Some(value as u64) && 0 <= value <= most,
            None => r.is_none(),
        },
{
    let length = raw.unicode_len();
    if start >= length {
        return None;
    }
    let ghost digits = raw@.skip(start as int);
    let mut value: u64 = 0;
    let mut at: usize = start;
    assert(digits.take(0) =~= Seq::empty());
    while at < length
        invariant
            start <= at <= length,
            length == raw@.len(),
            digits == raw@.skip(start as int),
            all_digits(digits.take(at - start)),
            value == value_of(digits.take(at - start)),
            value <= most,
        decreases length - at,
    {
        let c = raw.get_char(at);
        let code = c as u32;
        let ghost k = at - start;
        assert(digits[k] == c);
        if code < 48 || code > 57 {
            assert(!is_digit(digits[k]));
            return None;
        }
        let next = match value.checked_mul(10) {
            Some(tens) => tens.checked_add((code - 48) as u64),
            None => None,
        };
        proof {
            let longer = digits.take(k + 1);
            assert(longer.drop_last() =~= digits.take(k));
            assert(longer.last() == c);
            assert forall|i: int| 0 <= i < longer.len() implies is_digit(#[trigger] longer[i]) by {
                if i < k {
                    assert(digits.take(k)[i] == longer[i]);
                }
            }
        }
        proof {
            if all_digits(digits) {
                lemma_value_grows(digits, k + 1);
            }
        }
        match next {
            Some(next) => {
                if next > most {
                    return None;
                }
                value = next;
            },
            None => {
                return None;
            },
        }
        at += 1;
    }
    assert(digits.take(at - start) =~= digits);
    Some(value)
}

} // verus!
