//! Decimal numerals: how a natural number is written in base ten, and how a
//! run of digits in a text is read back.
//!
//! A numeral has no sign and no leading zero; zero is written `0`. Numbers and
//! numerals correspond one to one, which is what makes the text of a version
//! readable in exactly one way.

use vstd::prelude::*;
use vstd::string::StringExecFns;

verus! {

/// Whether `c` is one of the ten digits `0` to `9`.
pub open spec fn is_digit(c: char) -> bool {
    '0' <= c <= '9'
}

/// The character that writes the digit `d`, for `d` below ten.
pub open spec fn digit_char(d: nat) -> char {
    ((d + 48) as u8) as char
}

/// The digit that `c` writes; zero where `c` is no digit.
pub open spec fn digit_value(c: char) -> nat {
    if is_digit(c) {
        (c as nat - 48) as nat
    } else {
        0
    }
}

/// The numeral of `n`.
pub open spec fn decimal(n: nat) -> Seq<char>
    decreases n,
{
    if n < 10 {
        seq![digit_char(n)]
    } else {
        decimal(n / 10).push(digit_char(n % 10))
    }
}

/// The number that a run of digits writes, most significant digit first.
pub open spec fn decimal_value(s: Seq<char>) -> nat
    decreases s.len(),
{
    if s.len() == 0 {
        0
    } else {
        10 * decimal_value(s.drop_last()) + digit_value(s.last())
    }
}

/// Whether `s` is a numeral: digits only, at least one, and no leading zero
/// before another digit.
pub open spec fn is_numeral(s: Seq<char>) -> bool {
    &&& s.len() > 0
    &&& forall|i: int| 0 <= i < s.len() ==> is_digit(#[trigger] s[i])
    &&& (s.len() > 1 ==> s[0] != '0')
}

/// Whether `s` holds the numeral of `n` from `start` up to `end`, and no digit
/// follows it there.
pub open spec fn numeral_at(s: Seq<char>, start: int, end: int, n: nat) -> bool {
    &&& 0 <= start < end <= s.len()
    &&& s.subrange(start, end) == decimal(n)
    &&& (end == s.len() || !is_digit(s[end]))
}

/// What `decimal` writes is a numeral.
pub proof fn lemma_decimal_is_numeral(n: nat)
    ensures
        is_numeral(decimal(n)),
    decreases n,
{
    if n >= 10 {
        lemma_decimal_is_numeral(n / 10);
        let head = decimal(n / 10);
        let whole = decimal(n);
        assert(whole == head.push(digit_char(n % 10)));
        assert forall|i: int| 0 <= i < whole.len() implies is_digit(#[trigger] whole[i]) by {
            if i < head.len() {
                assert(whole[i] == head[i]);
            }
        }
        lemma_leading_digit(n / 10);
        assert(whole[0] == head[0]);
    }
}

/// The numeral of a number other than zero does not begin with `0`.
proof fn lemma_leading_digit(n: nat)
    requires
        n > 0,
    ensures
        decimal(n).len() > 0,
        decimal(n)[0] != '0',
    decreases n,
{
    if n >= 10 {
        lemma_leading_digit(n / 10);
        assert(decimal(n)[0] == decimal(n / 10)[0]);
    }
}

/// Reading back the numeral of `n` gives `n`.
pub proof fn lemma_decimal_value(n: nat)
    ensures
        decimal_value(decimal(n)) == n,
    decreases n,
{
    if n < 10 {
        let s = decimal(n);
        assert(s.drop_last().len() == 0);
        assert(decimal_value(s.drop_last()) == 0);
        assert(s.last() == digit_char(n));
    } else {
        lemma_decimal_value(n / 10);
        let s = decimal(n);
        assert(s.drop_last() == decimal(n / 10));
        assert(s.last() == digit_char(n % 10));
    }
}

/// Two numbers with the same numeral are the same number.
pub proof fn lemma_decimal_injective(a: nat, b: nat)
    requires
        decimal(a) == decimal(b),
    ensures
        a == b,
{
    lemma_decimal_value(a);
    lemma_decimal_value(b);
}

/// A run of digits that does not begin with `0` writes a number above zero.
proof fn lemma_value_positive(s: Seq<char>)
    requires
        s.len() > 0,
        forall|i: int| 0 <= i < s.len() ==> is_digit(#[trigger] s[i]),
        s[0] != '0',
    ensures
        decimal_value(s) > 0,
    decreases s.len(),
{
    if s.len() > 1 {
        let head = s.drop_last();
        assert(head[0] == s[0]);
        assert forall|i: int| 0 <= i < head.len() implies is_digit(#[trigger] head[i]) by {
            assert(head[i] == s[i]);
        }
        lemma_value_positive(head);
    } else {
        assert(s.last() == s[0]);
        assert(decimal_value(s.drop_last()) == 0);
    }
}

/// A numeral is the numeral of the number it writes.
pub proof fn lemma_numeral_is_decimal(s: Seq<char>)
    requires
        is_numeral(s),
    ensures
        decimal(decimal_value(s)) == s,
    decreases s.len(),
{
    let head = s.drop_last();
    if s.len() == 1 {
        assert(decimal_value(head) == 0);
        assert(s.last() == s[0]);
        assert(is_digit(s[0]));
        assert(decimal(decimal_value(s)) =~= s);
    } else {
        assert(head[0] == s[0]);
        assert forall|i: int| 0 <= i < head.len() implies is_digit(#[trigger] head[i]) by {
            assert(head[i] == s[i]);
        }
        lemma_numeral_is_decimal(head);
        lemma_value_positive(head);
        assert(is_digit(s.last()));
        let n = decimal_value(s);
        assert(n / 10 == decimal_value(head));
        assert(n % 10 == digit_value(s.last()));
        assert(decimal(n) =~= s);
    }
}

/// Digits added behind a run never make the number smaller.
pub proof fn lemma_value_of_prefix(s: Seq<char>, k: int)
    requires
        0 <= k <= s.len(),
    ensures
        decimal_value(s.take(k)) <= decimal_value(s),
    decreases s.len() - k,
{
    if k < s.len() {
        let head = s.drop_last();
        lemma_value_of_prefix(head, k);
        assert(head.take(k) == s.take(k));
    } else {
        assert(s.take(k) == s);
    }
}

/// At a given place a text holds at most one numeral.
pub proof fn lemma_numeral_at_unique(
    s: Seq<char>,
    start: int,
    end1: int,
    n1: nat,
    end2: int,
    n2: nat,
)
    requires
        numeral_at(s, start, end1, n1),
        numeral_at(s, start, end2, n2),
    ensures
        end1 == end2,
        n1 == n2,
{
    lemma_decimal_is_numeral(n1);
    lemma_decimal_is_numeral(n2);
    let run1 = s.subrange(start, end1);
    let run2 = s.subrange(start, end2);
    if end1 < end2 {
        assert(run2[end1 - start] == s[end1]);
    }
    if end2 < end1 {
        assert(run1[end2 - start] == s[end2]);
    }
    lemma_decimal_injective(n1, n2);
}

/// The one-character text of a digit.
fn digit_text(d: u8) -> (text: &'static str)
    requires
        d < 10,
    ensures
        text@ == seq![digit_char(d as nat)],
{
    let text = match d {
        0 => "0",
        1 => "1",
        2 => "2",
        3 => "3",
        4 => "4",
        5 => "5",
        6 => "6",
        7 => "7",
        8 => "8",
        _ => "9",
    };
    proof {
        reveal_strlit("0");
        reveal_strlit("1");
        reveal_strlit("2");
        reveal_strlit("3");
        reveal_strlit("4");
        reveal_strlit("5");
        reveal_strlit("6");
        reveal_strlit("7");
        reveal_strlit("8");
        reveal_strlit("9");
        assert(text@ =~= seq![digit_char(d as nat)]);
    }
    text
}

/// Writes the numeral of `n` at the end of `out`.
pub fn push_decimal(out: &mut String, n: u64)
    ensures
        final(out)@ == old(out)@ + decimal(n as nat),
    decreases n,
{
    if n >= 10 {
        push_decimal(out, n / 10);
    }
    let last: u8 = (n % 10) as u8;
    out.append(digit_text(last));
    proof {
        assert(out@ =~= old(out)@ + decimal(n as nat));
    }
}

/// Reads the numeral that begins at `start`.
///
/// Gives the number and the place where the numeral ends, or `None` where no
/// numeral of a number up to `u64::MAX` stands there: no digit at `start`, a
/// zero in front of another digit, or a number too large.
pub fn read_decimal(s: &[char], start: usize) -> (r: Option<(u64, usize)>)
    requires
        start <= s@.len(),
    ensures
        match r {
            Some((n, end)) => numeral_at(s@, start as int, end as int, n as nat),
            None => forall|n: nat, end: int|
                n <= u64::MAX ==> !numeral_at(s@, start as int, end, n),
        },
{
    let len = s.len();
    let mut end: usize = start;
    let mut value: u64 = 0;
    while end < len && '0' <= s[end] && s[end] <= '9'
        invariant
            len == s@.len(),
            start <= end <= len,
            forall|i: int| start <= i < end ==> is_digit(#[trigger] s@[i]),
            end > start ==> is_numeral(s@.subrange(start as int, end as int)),
            value == decimal_value(s@.subrange(start as int, end as int)),
        decreases len - end,
    {
        let ghost run = s@.subrange(start as int, end as int);
        let ghost longer = s@.subrange(start as int, end + 1);
        let digit: u8 = (s[end] as u8) - 48u8;
        proof {
            assert(longer.drop_last() == run);
            assert(longer.last() == s@[end as int]);
            assert(decimal_value(longer) == 10 * value + digit);
        }
        if end > start && value == 0 {
            proof {
                assert(run[0] == s@[start as int]);
                if run.len() == 1 {
                    assert(run.last() == run[0]);
                    assert(decimal_value(run.drop_last()) == 0);
                } else {
                    lemma_value_positive(run);
                }
                assert(s@[start as int] == '0');
                assert forall|n: nat, stop: int| n <= u64::MAX implies !numeral_at(
                    s@,
                    start as int,
                    stop,
                    n,
                ) by {
                    if numeral_at(s@, start as int, stop, n) {
                        lemma_decimal_is_numeral(n);
                        let numeral = s@.subrange(start as int, stop);
                        assert(numeral[0] == s@[start as int]);
                        if stop <= end {
                            assert(is_digit(s@[stop]));
                        }
                    }
                }
            }
            return None;
        }
        let next = match value.checked_mul(10) {
            Some(tens) => tens.checked_add(digit as u64),
            None => None,
        };
        match next {
            Some(sum) => {
                proof {
                    assert forall|i: int| 0 <= i < longer.len() implies is_digit(
                        #[trigger] longer[i],
                    ) by {
                        assert(longer[i] == s@[start + i]);
                    }
                    if longer.len() > 1 {
                        assert(run[0] == s@[start as int]);
                        assert(longer[0] == s@[start as int]);
                        if run.len() == 1 {
                            assert(run.last() == run[0]);
                            assert(decimal_value(run.drop_last()) == 0);
                        }
                    }
                }
                value = sum;
                end = end + 1;
            },
            None => {
                proof {
                    assert(decimal_value(longer) > u64::MAX);
                    assert forall|n: nat, stop: int| n <= u64::MAX implies !numeral_at(
                        s@,
                        start as int,
                        stop,
                        n,
                    ) by {
                        if numeral_at(s@, start as int, stop, n) {
                            lemma_decimal_value(n);
                            let numeral = s@.subrange(start as int, stop);
                            if stop <= end {
                                assert(is_digit(s@[stop]));
                            }
                            assert(numeral.take(end + 1 - start) == longer);
                            lemma_value_of_prefix(numeral, end + 1 - start);
                        }
                    }
                }
                return None;
            },
        }
    }
    if end == start {
        proof {
            assert forall|n: nat, stop: int| n <= u64::MAX implies !numeral_at(
                s@,
                start as int,
                stop,
                n,
            ) by {
                if numeral_at(s@, start as int, stop, n) {
                    lemma_decimal_is_numeral(n);
                    let numeral = s@.subrange(start as int, stop);
                    assert(numeral[0] == s@[start as int]);
                }
            }
        }
        None
    } else {
        proof {
            lemma_numeral_is_decimal(s@.subrange(start as int, end as int));
        }
        Some((value, end))
    }
}

} // verus!
