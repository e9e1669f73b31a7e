//! Number constants from their text.
use vstd::prelude::*;
use crate::evaluate_type::expr::Const;
use crate::text::chars_of;

verus! {

/// The value of a decimal digit; nothing for any other character.
pub open spec fn digit_value(c: char) -> Option<int> {
    if '0' <= c <= '9' {
        Some(c as int - '0' as int)
    } else {
        None
    }
}

/// The number that a text of decimal digits writes; nothing for the empty
/// text and for a text with any other character.
pub open spec fn digits_value(s: Seq<char>) -> Option<int>
    decreases s.len(),
{
    if s.len() == 0 {
        None
    } else if s.len() == 1 {
        digit_value(s[0])
    } else {
        match (digits_value(s.drop_last()), digit_value(s.last())) {
            (Some(v), Some(d)) => Some(10 * v + d),
            _ => None,
        }
    }
}

/// The integer that a text writes: decimal digits, after a minus sign for
/// the negative of what they write; nothing for any other text.
pub open spec fn integer_value(s: Seq<char>) -> Option<int> {
    if s.len() > 0 && s[0] == '-' {
        match digits_value(s.drop_first()) {
            Some(v) => Some(-v),
            None => None,
        }
    } else {
        digits_value(s)
    }
}

/// Whether a constant is the one that the text of a number stands for: the
/// integer that the text writes, if it writes one that a constant can hold,
/// and otherwise a number that is no integer, with the text as written.
pub open spec fn is_number_const(text: Seq<char>, c: Const) -> bool {
    match integer_value(text) {
        Some(v) => if i64::MIN <= v <= i64::MAX {
            c == Const::Int(v as i64)
        } else {
            c matches Const::Float(s) && s@ == text
        },
        None => c matches Const::Float(s) && s@ == text,
    }
}

/// What a text of digits writes is not negative, and not less than what any of
/// its beginnings writes.
pub proof fn lemma_digits_grow(s: Seq<char>, n: int)
    requires
        1 <= n <= s.len(),
        digits_value(s) is Some,
    ensures
        digits_value(s.take(n)) is Some,
        0 <= digits_value(s.take(n))->Some_0 <= digits_value(s)->Some_0,
    decreases s.len() - n,
{
    if n == s.len() {
        assert(s.take(n) =~= s);
        lemma_digits_not_negative(s);
    } else {
        assert(s.len() >= 2);
        assert(s.drop_last().take(n) =~= s.take(n));
        lemma_digits_grow(s.drop_last(), n);
        lemma_digits_not_negative(s.drop_last());
    }
}

proof fn lemma_digits_not_negative(s: Seq<char>)
    requires
        digits_value(s) is Some,
    ensures
        digits_value(s)->Some_0 >= 0,
    decreases s.len(),
{
    if s.len() >= 2 {
        lemma_digits_not_negative(s.drop_last());
    }
}

fn value_of_digit(c: char) -> (r: Option<u64>)
    ensures
        match r {
            Some(d) => digit_value(c) == Some(d as int) && d <= 9,
            None => digit_value(c) is None,
        },
{
    if '0' <= c && c <= '9' {
        Some((c as u64) - ('0' as u64))
    } else {
        None
    }
}

impl Const {
    /// The constant that the text of a number stands for.
    pub fn number(text: &str) -> (r: Const)
        ensures
            is_number_const(text@, r),
    {
        let chars = chars_of(text);
        let negative = chars.len() > 0 && chars[0] == '-';
        let start: usize = if negative {
            1
        } else {
            0
        };
        let ghost digits = if negative {
            text@.drop_first()
        } else {
            text@
        };
        if start >= chars.len() {
            return Const::Float(String::from_str(text));
        }
        let mut magnitude: u64 = 0;
        let mut i: usize = start;
        while i < chars.len()
            invariant
                start <= i <= chars.len(),
                chars@ == text@,
                start == if negative {
                    1usize
                } else {
                    0usize
                },
                negative == (text@.len() > 0 && text@[0] == '-'),
                digits == (if negative {
                    text@.drop_first()
                } else {
                    text@
                }),
                digits.len() == chars.len() - start,
                forall|k: int| 0 <= k < digits.len() ==> digits[k] == chars@[k + start],
                i > start ==> digits_value(digits.take(i - start)) == Some(magnitude as int),
                i == start ==> magnitude == 0,
                magnitude <= 9223372036854775808u64,
            decreases chars.len() - i,
        {
            let ghost so_far = digits.take(i - start);
            let ghost next = digits.take(i - start + 1);
            proof {
                assert(next.last() == chars@[i as int]);
                if i > start {
                    assert(next.drop_last() =~= so_far);
                } else {
                    assert(next.len() == 1);
                    assert(next[0] == chars@[i as int]);
                }
            }
            let d = match value_of_digit(chars[i]) {
                Some(d) => d,
                None => {
                    proof {
                        assert(digits_value(next) is None);
                        if digits_value(digits) is Some {
                            lemma_digits_grow(digits, i - start + 1);
                        }
                        assert(integer_value(text@) is None);
                    }
                    return Const::Float(String::from_str(text));
                },
            };
            assert(digits_value(next) == Some(10 * magnitude + d));
            if magnitude > 922337203685477580u64 || magnitude * 10 + d > 9223372036854775808u64 {
                proof {
                    if digits_value(digits) is Some {
                        lemma_digits_grow(digits, i - start + 1);
                        assert(digits_value(digits)->Some_0 > 9223372036854775808);
                    }
                }
                return Const::Float(String::from_str(text));
            }
            magnitude = magnitude * 10 + d;
            i += 1;
        }
        assert(digits.take(chars.len() - start) =~= digits);
        if negative {
            if magnitude == 9223372036854775808u64 {
                Const::Int(i64::MIN)
            } else {
                Const::Int(-(magnitude as i64))
            }
        } else if magnitude <= 9223372036854775807u64 {
            Const::Int(magnitude as i64)
        } else {
            Const::Float(String::from_str(text))
        }
    }
}

} // verus!
