//! Integers written in decimal.

use crate::scalar::Token;
use crate::text::push_char;
use vstd::prelude::*;

verus! {

/// Whether `c` is one of the ten digits.
pub open spec fn is_digit(c: char) -> bool {
    '0' <= c && c <= '9'
}

/// The digit that stands for `d`.
pub open spec fn digit_of(d: int) -> char
    recommends
        0 <= d <= 9,
{
    if d == 0 {
        '0'
    } else if d == 1 {
        '1'
    } else if d == 2 {
        '2'
    } else if d == 3 {
        '3'
    } else if d == 4 {
        '4'
    } else if d == 5 {
        '5'
    } else if d == 6 {
        '6'
    } else if d == 7 {
        '7'
    } else if d == 8 {
        '8'
    } else {
        '9'
    }
}

/// The number that the digit `c` stands for.
pub open spec fn digit_value(c: char) -> int
    recommends
        is_digit(c),
{
    c as int - '0' as int
}

/// Whether `s` holds digits only.
pub open spec fn all_digits(s: Seq<char>) -> bool {
    forall|i: int| 0 <= i < s.len() ==> is_digit(#[trigger] s[i])
}

/// The number that the digits `s` stand for, the first digit counting most.
pub open spec fn value_of(s: Seq<char>) -> int
    decreases s.len(),
{
    if s.len() == 0 {
        0
    } else {
        10 * value_of(s.drop_last()) + digit_value(s.last())
    }
}

/// The digits of `n`, without leading zeros.
pub open spec fn digits_of(n: nat) -> Seq<char>
    decreases n,
{
    if n < 10 {
        seq![digit_of(n as int)]
    } else {
        digits_of(n / 10).push(digit_of((n % 10) as int))
    }
}

/// The text of `n`: its digits, after a minus sign where it is negative.
pub open spec fn text_of(n: int) -> Seq<char> {
    if n < 0 {
        seq!['-'] + digits_of((-n) as nat)
    } else {
        digits_of(n as nat)
    }
}

/// The `i64` that `text` stands for: an optional sign, `+` or `-`, then at
/// least one digit and nothing else, the number within the range of `i64`.
pub open spec fn number_of(text: Seq<char>) -> Option<i64> {
    let signed = text.len() > 0 && (text[0] == '-' || text[0] == '+');
    let digits = if signed {
        text.drop_first()
    } else {
        text
    };
    let value = if signed && text[0] == '-' {
        -value_of(digits)
    } else {
        value_of(digits)
    };
    if digits.len() > 0 && all_digits(digits) && i64::MIN <= value <= i64::MAX {
        Some(value as i64)
    } else {
        None
    }
}

/// The number of a sequence of digits is not below that of a part at its
/// start.
pub proof fn lemma_value_grows(s: Seq<char>, k: int)
    requires
        all_digits(s),
        0 <= k <= s.len(),
    ensures
        0 <= value_of(s.subrange(0, k)) <= value_of(s),
    decreases s.len() - k,
{
    lemma_value_nonnegative(s.subrange(0, k));
    if k < s.len() {
        lemma_value_grows(s, k + 1);
        let longer = s.subrange(0, k + 1);
        assert(longer.drop_last() =~= s.subrange(0, k));
        assert(is_digit(longer.last()));
    } else {
        assert(s.subrange(0, k) =~= s);
    }
}

/// The number of a sequence of digits is not negative.
pub proof fn lemma_value_nonnegative(s: Seq<char>)
    requires
        all_digits(s),
    ensures
        0 <= value_of(s),
    decreases s.len(),
{
    if s.len() > 0 {
        assert(is_digit(s.last()));
        lemma_value_nonnegative(s.drop_last());
    }
}

/// The digit that stands for `d`.
fn digit(d: u64) -> (c: char)
    requires
        d <= 9,
    ensures
        c == digit_of(d as int),
{
    if d == 0 {
        '0'
    } else if d == 1 {
        '1'
    } else if d == 2 {
        '2'
    } else if d == 3 {
        '3'
    } else if d == 4 {
        '4'
    } else if d == 5 {
        '5'
    } else if d == 6 {
        '6'
    } else if d == 7 {
        '7'
    } else if d == 8 {
        '8'
    } else {
        '9'
    }
}

/// Appends the digits of `n` to `s`.
fn push_digits(s: &mut String, n: u64)
    ensures
        final(s)@ == old(s)@ + digits_of(n as nat),
    decreases n,
{
    if n >= 10 {
        push_digits(s, n / 10);
    }
    push_char(s, digit(n % 10));
    proof {
        if n >= 10 {
            assert(old(s)@ + digits_of(n as nat) =~= (old(s)@ + digits_of((n / 10) as nat)).push(
                digit_of((n % 10) as int),
            ));
        } else {
            assert(old(s)@ + digits_of(n as nat) =~= old(s)@.push(digit_of(n as int)));
        }
    }
}

/// The number of the digit `c`, if it is one.
fn digit_number(c: char) -> (r: Option<i64>)
    ensures
        is_digit(c) ==> r == Some(digit_value(c) as i64),
        !is_digit(c) ==> r is None,
{
    if '0' <= c && c <= '9' {
        Some((c as u32 - '0' as u32) as i64)
    } else {
        None
    }
}

/// An `i64` is read and written in decimal.
impl Token for i64 {
    open spec fn parsed(text: Seq<char>) -> Option<i64> {
        number_of(text)
    }

    open spec fn text(&self) -> Seq<char> {
        text_of(*self as int)
    }

    fn parse(text: &[char]) -> (r: Option<i64>) {
        let negative = text.len() > 0 && text[0] == '-';
        let start: usize = if text.len() > 0 && (text[0] == '-' || text[0] == '+') {
            1
        } else {
            0
        };
        let ghost digits = text@.subrange(start as int, text.len() as int);
        assert(digits =~= if start == 1 {
            text@.drop_first()
        } else {
            text@
        });
        if start == text.len() {
            return None;
        }
        // The number is gathered below zero, where the range reaches further.
        let mut acc: i64 = 0;
        let mut i: usize = start;
        assert(digits.subrange(0, 0) =~= Seq::<char>::empty());
        while i < text.len()
            invariant
                start <= i <= text.len(),
                start < text.len(),
                start == 1 <==> text@[0] == '-' || text@[0] == '+',
                start == 0 || start == 1,
                negative <==> text@[0] == '-',
                digits == text@.subrange(start as int, text.len() as int),
                digits == if start == 1 {
                    text@.drop_first()
                } else {
                    text@
                },
                all_digits(digits.subrange(0, i - start)),
                acc == -value_of(digits.subrange(0, i - start)),
            decreases text.len() - i,
        {
            let ghost shorter = digits.subrange(0, i - start);
            let ghost longer = digits.subrange(0, i + 1 - start);
            assert(longer.drop_last() =~= shorter);
            assert(longer.last() == text@[i as int]);
            let d = match digit_number(text[i]) {
                Some(d) => d,
                None => {
                    assert(!is_digit(digits[i - start]));
                    assert(!all_digits(digits));
                    return None;
                },
            };
            assert(all_digits(longer)) by {
                assert forall|k: int| 0 <= k < longer.len() implies is_digit(#[trigger] longer[k]) by {
                    if k < shorter.len() {
                        assert(longer[k] == shorter[k]);
                    }
                }
            }
            proof {
                lemma_value_nonnegative(shorter);
                if all_digits(digits) {
                    lemma_value_grows(digits, i + 1 - start);
                }
            }
            assert(value_of(longer) == 10 * value_of(shorter) + d);
            let tenfold = match acc.checked_mul(10) {
                Some(t) => t,
                None => {
                    assert(value_of(longer) > i64::MAX + 1);
                    return None;
                },
            };
            acc = match tenfold.checked_sub(d) {
                Some(a) => a,
                None => {
                    assert(value_of(longer) > i64::MAX + 1);
                    return None;
                },
            };
            i += 1;
        }
        assert(digits.subrange(0, i - start) =~= digits);
        if negative {
            Some(acc)
        } else if acc == i64::MIN {
            None
        } else {
            Some(-acc)
        }
    }

    fn render(&self) -> (r: String) {
        let mut s = String::new();
        if *self < 0 {
            push_char(&mut s, '-');
            // The number below zero that is nearest to the lower end has no
            // counterpart above zero in `i64`.
            let magnitude: u64 = (-(*self + 1)) as u64 + 1;
            push_digits(&mut s, magnitude);
        } else {
            push_digits(&mut s, *self as u64);
        }
        s
    }
}

} // verus!
