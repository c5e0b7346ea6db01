//! Integers as decimal text, in both directions.

use vstd::prelude::*;
use vstd::string::*;
use crate::text::split_first;

verus! {

/// The character of a decimal digit.
pub open spec fn digit_char(d: int) -> char {
    seq!['0', '1', '2', '3', '4', '5', '6', '7', '8', '9'][d]
}

/// The decimal digits of a natural number, without leading zeros.
pub open spec fn digits(n: nat) -> Seq<char>
    decreases n,
{
    if n < 10 {
        seq![digit_char(n as int)]
    } else {
        digits(n / 10).push(digit_char((n % 10) as int))
    }
}

/// An integer in decimal, with a minus sign where it is negative.
pub open spec fn decimal(n: int) -> Seq<char> {
    if n < 0 {
        seq!['-'] + digits((-n) as nat)
    } else {
        digits(n as nat)
    }
}

/// Whether `c` is one of the ten digits.
pub open spec fn is_digit(c: char) -> bool {
    0x30 <= c as u32 <= 0x39
}

/// What a digit counts for; nothing for any other character.
pub open spec fn digit_value(c: char) -> nat {
    if is_digit(c) {
        (c as u32 - 0x30) as nat
    } else {
        0
    }
}

/// Whether `s` holds digits only.
pub open spec fn all_digits(s: Seq<char>) -> bool {
    forall|i: int| 0 <= i < s.len() ==> is_digit(#[trigger] s[i])
}

/// The number that a run of digits stands for.
pub open spec fn number_of(s: Seq<char>) -> nat
    decreases s.len(),
{
    if s.len() == 0 {
        0
    } else {
        number_of(s.drop_last()) * 10 + digit_value(s.last())
    }
}

/// `s` without the sign that it may start with.
pub open spec fn unsigned_part(s: Seq<char>) -> Seq<char> {
    if s.len() > 0 && (s[0] == '-' || s[0] == '+') {
        s.drop_first()
    } else {
        s
    }
}

/// The integer that `s` is the decimal form of: an optional sign, then one
/// digit or more, and nothing else.
pub open spec fn integer_of(s: Seq<char>) -> Option<int> {
    let d = unsigned_part(s);
    if d.len() > 0 && all_digits(d) {
        if s[0] == '-' {
            Some(-(number_of(d) as int))
        } else {
            Some(number_of(d) as int)
        }
    } else {
        None
    }
}

/// The integer that `s` is the decimal form of, where it fits 64 bits.
pub open spec fn parsed_i64(s: Seq<char>) -> Option<i64> {
    match integer_of(s) {
        Some(v) => if i64::MIN <= v <= i64::MAX {
            Some(v as i64)
        } else {
            None
        },
        None => None,
    }
}

/// The digits of a number are digits, at least one, and stand for it.
pub proof fn lemma_digits_read_back(n: nat)
    ensures
        digits(n).len() > 0,
        all_digits(digits(n)),
        number_of(digits(n)) == n,
        digits(n)[0] != '-' && digits(n)[0] != '+',
    decreases n,
{
    if n >= 10 {
        lemma_digits_read_back(n / 10);
        let init = digits(n / 10);
        let all = digits(n);
        assert(all.drop_last() == init);
        assert(is_digit(all.last()));
        assert forall|i: int| 0 <= i < all.len() implies is_digit(#[trigger] all[i]) by {
            if i < init.len() {
                assert(all[i] == init[i]);
            }
        }
        assert(all[0] == init[0]);
    } else {
        assert(digits(n).drop_last() == Seq::<char>::empty());
        reveal_with_fuel(number_of, 2);
    }
}

/// What is written in decimal is read back as the same integer: an id that
/// went out to a client comes back as it was.
pub proof fn lemma_decimal_reads_back(n: i64)
    ensures
        parsed_i64(decimal(n as int)) == Some(n),
{
    if n < 0 {
        let m = (-n) as nat;
        lemma_digits_read_back(m);
        let s = decimal(n as int);
        assert(s[0] == '-');
        assert(s.drop_first() == digits(m));
    } else {
        lemma_digits_read_back(n as nat);
    }
}

/// More digits make no smaller number.
pub proof fn lemma_number_grows(s: Seq<char>, k: int)
    requires
        0 <= k <= s.len(),
    ensures
        number_of(s.take(k)) <= number_of(s),
    decreases s.len() - k,
{
    if k < s.len() {
        lemma_number_grows(s, k + 1);
        assert(s.take(k + 1).drop_last() == s.take(k));
    } else {
        assert(s.take(k) == s);
    }
}

/// The text of one digit.
fn digit_str(d: u64) -> (r: &'static str)
    requires
        d < 10,
    ensures
        r@ == seq![digit_char(d as int)],
{
    proof {
        reveal_strlit("0");
        reveal_strlit("1");
        reveal_strlit("2");
        reveal_strlit("3");
        reveal_strlit("4");
        reveal_strlit("5");
        reveal_strlit("6");
        reveal_strlit("7");
        reveal_strlit("8");
        reveal_strlit("9");
    }
    let r = if d == 0 {
        "0"
    } else if d == 1 {
        "1"
    } else if d == 2 {
        "2"
    } else if d == 3 {
        "3"
    } else if d == 4 {
        "4"
    } else if d == 5 {
        "5"
    } else if d == 6 {
        "6"
    } else if d == 7 {
        "7"
    } else if d == 8 {
        "8"
    } else {
        "9"
    };
    assert(r@ =~= seq![digit_char(d as int)]);
    r
}

/// Appends the decimal digits of `n` to `out`.
fn push_digits(out: &mut String, n: u64)
    ensures
        final(out)@ == old(out)@ + digits(n as nat),
    decreases n,
{
    if n >= 10 {
        push_digits(out, n / 10);
    }
    let ghost before = out@;
    out.append(digit_str(n % 10));
    proof {
        if n >= 10 {
            assert(old(out)@ + digits((n / 10) as nat).push(digit_char((n % 10) as int)) == before
                + seq![digit_char((n % 10) as int)]);
        }
    }
}

/// An id in decimal.
pub fn decimal_string(n: i64) -> (r: String)
    ensures
        r@ == decimal(n as int),
{
    let mut out = String::new();
    if n < 0 {
        proof {
            reveal_strlit("-");
            assert("-"@ =~= seq!['-']);
        }
        out.append("-");
        let magnitude: u64 = ((-(n + 1)) as u64) + 1;
        push_digits(&mut out, magnitude);
    } else {
        push_digits(&mut out, n as u64);
    }
    proof {
        assert(Seq::<char>::empty() + digits(n as nat) == digits(n as nat));
    }
    out
}

/// Reads a decimal integer: an optional sign, then one digit or more, and
/// nothing else. Gives `None` for any other text and for a number that does
/// not fit 64 bits.
pub fn parse_i64(s: &str) -> (r: Option<i64>)
    ensures
        r == parsed_i64(s@),
{
    let (negative, digits) = match split_first(s) {
        None => {
            return None;
        },
        Some((c, _, tail)) => if c == '-' {
            (true, tail)
        } else if c == '+' {
            (false, tail)
        } else {
            (false, s)
        },
    };
    let ghost d = digits@;
    assert(d == unsigned_part(s@));
    if digits.is_empty() {
        return None;
    }
    let mut acc: i128 = 0;
    let mut rest: &str = digits;
    let ghost mut k: int = 0;
    proof {
        assert(d.take(0) == Seq::<char>::empty());
    }
    loop
        invariant
            d == unsigned_part(s@),
            d.len() > 0,
            0 <= k <= d.len(),
            rest@ == d.skip(k),
            all_digits(d.take(k)),
            acc == number_of(d.take(k)),
            acc <= 0x8000_0000_0000_0000,
        ensures
            k == d.len(),
        decreases d.len() - k,
    {
        match split_first(rest) {
            None => {
                break ;
            },
            Some((c, _, tail)) => {
                assert(c == d[k]);
                let v: u32 = c as u32;
                if v < 0x30 || v > 0x39 {
                    assert(!is_digit(d[k]));
                    return None;
                }
                proof {
                    assert(d.skip(k).drop_first() == d.skip(k + 1));
                    assert(d.take(k + 1).drop_last() == d.take(k));
                    assert(d.take(k + 1).last() == c);
                    assert forall|i: int| 0 <= i < k + 1 implies is_digit(
                        #[trigger] d.take(k + 1)[i],
                    ) by {
                        if i < k {
                            assert(d.take(k + 1)[i] == d.take(k)[i]);
                        }
                    }
                    k = k + 1;
                }
                acc = acc * 10 + (v - 0x30) as i128;
                rest = tail;
                if acc > 0x8000_0000_0000_0000 {
                    proof {
                        lemma_number_grows(d, k);
                        assert(number_of(d) > i64::MAX + 1);
                    }
                    return None;
                }
            },
        }
    }
    proof {
        assert(d.take(k) == d);
    }
    if negative {
        Some((-acc) as i64)
    } else if acc == 0x8000_0000_0000_0000 {
        None
    } else {
        Some(acc as i64)
    }
}

} // verus!
