//! Decimal numbers as text: rendering counters for display and reading the
//! numeric query parameters of the protocol.

use vstd::prelude::*;
use vstd::string::StringExecFns;
use crate::checksum::hex_digit;

verus! {

/// Decimal rendering of a natural number, most significant digit first.
pub open spec fn spec_digits(n: nat) -> Seq<char>
    decreases n,
{
    if n < 10 {
        seq![hex_digit(n as u8)]
    } else {
        spec_digits(n / 10) + seq![hex_digit((n % 10) as u8)]
    }
}

/// The one-character string for a decimal digit.
fn digit_str(d: u64) -> (r: &'static str)
    requires
        d < 10,
    ensures
        r@ == seq![hex_digit(d as u8)],
{
    proof {
        reveal_strlit("0");
        reveal_strlit("1");
        reveal_strlit("2");
        reveal_strlit("3");
        reveal_strlit("4");
        reveal_strlit("5");
        reveal_strlit("6");
        reveal_strlit("7");
        reveal_strlit("8");
        reveal_strlit("9");
    }
    let r = if d == 0 {
        "0"
    } else if d == 1 {
        "1"
    } else if d == 2 {
        "2"
    } else if d == 3 {
        "3"
    } else if d == 4 {
        "4"
    } else if d == 5 {
        "5"
    } else if d == 6 {
        "6"
    } else if d == 7 {
        "7"
    } else if d == 8 {
        "8"
    } else {
        "9"
    };
    proof {
        assert(r@ =~= seq![hex_digit(d as u8)]);
    }
    r
}

/// Decimal rendering of a number.
pub fn u64_string(n: u64) -> (r: String)
    ensures
        r@ == spec_digits(n as nat),
    decreases n,
{
    if n < 10 {
        String::from_str(digit_str(n))
    } else {
        let mut s = u64_string(n / 10);
        s.append(digit_str(n % 10));
        s
    }
}

/// Whether a character is a decimal digit.
pub open spec fn spec_is_digit(c: char) -> bool {
    48 <= c as u32 <= 57
}

/// The numeric value of a digit string, most significant digit first.
pub open spec fn spec_dec_val(s: Seq<char>) -> int
    decreases s.len(),
{
    if s.len() == 0 {
        0
    } else {
        spec_dec_val(s.drop_last()) * 10 + (s.last() as u32 - 48)
    }
}

/// The digit part of a decimal literal: everything after one optional
/// leading plus sign.
pub open spec fn spec_digit_part(s: Seq<char>) -> Seq<char> {
    if s.len() > 0 && s[0] == '+' {
        s.skip(1)
    } else {
        s
    }
}

/// What `str::parse::<usize>` accepts: an optional plus sign, then at least
/// one digit, naming a value that fits in `usize`.
pub open spec fn spec_parse_usize(s: Seq<char>) -> Option<usize> {
    let d = spec_digit_part(s);
    if d.len() > 0 && (forall|i: int| 0 <= i < d.len() ==> spec_is_digit(#[trigger] d[i]))
        && spec_dec_val(d) <= usize::MAX {
        Some(spec_dec_val(d) as usize)
    } else {
        None
    }
}

/// A digit string's value only grows as digits are appended.
proof fn lemma_dec_val_grows(s: Seq<char>, i: int)
    requires
        0 <= i <= s.len(),
        forall|j: int| 0 <= j < s.len() ==> spec_is_digit(#[trigger] s[j]),
    ensures
        spec_dec_val(s.take(i)) <= spec_dec_val(s),
        spec_dec_val(s) >= 0,
    decreases s.len() - i,
{
    if i < s.len() {
        assert(s.take(i + 1).drop_last() =~= s.take(i));
        assert(s.take(i + 1).last() == s[i]);
        lemma_dec_val_grows(s, i + 1);
        assert(spec_dec_val(s.take(i)) * 10 <= spec_dec_val(s.take(i + 1))) by {
            assert(spec_dec_val(s.take(i)) >= 0) by {
                lemma_dec_val_nonneg(s.take(i));
            }
        }
    } else {
        assert(s.take(i) =~= s);
        lemma_dec_val_nonneg(s);
    }
}

proof fn lemma_dec_val_nonneg(s: Seq<char>)
    requires
        forall|j: int| 0 <= j < s.len() ==> spec_is_digit(#[trigger] s[j]),
    ensures
        spec_dec_val(s) >= 0,
    decreases s.len(),
{
    if s.len() > 0 {
        assert(forall|j: int|
            0 <= j < s.drop_last().len() ==> spec_is_digit(#[trigger] s.drop_last()[j]));
        lemma_dec_val_nonneg(s.drop_last());
    }
}

/// Reading of the digits of `s` from position `from` on, added to an
/// accumulator; `None` when a non-digit appears or the value leaves `usize`.
fn parse_digits(s: &str, from: usize) -> (r: Option<usize>)
    requires
        from <= s@.len(),
    ensures
        ({
            let d = s@.skip(from as int);
            match r {
                Some(v) => (forall|i: int|
                    0 <= i < d.len() ==> spec_is_digit(#[trigger] d[i])) && v == spec_dec_val(d),
                None => !((forall|i: int|
                    0 <= i < d.len() ==> spec_is_digit(#[trigger] d[i])) && spec_dec_val(d)
                    <= usize::MAX),
            }
        }),
{
    let ghost d = s@.skip(from as int);
    let n = s.unicode_len();
    let mut i: usize = from;
    let mut acc: usize = 0;
    while i < n
        invariant
            from <= i <= n,
            n == s@.len(),
            d == s@.skip(from as int),
            forall|j: int| 0 <= j < i - from ==> spec_is_digit(#[trigger] d[j]),
            acc == spec_dec_val(d.take(i - from)),
        decreases n - i,
    {
        let c = s.get_char(i);
        let v = c as u32;
        if v < 48 || v > 57 {
            proof {
                assert(d[i - from] == s@[i as int]);
                assert(!spec_is_digit(d[i - from]));
            }
            return None;
        }
        let dv = (v - 48) as usize;
        proof {
            assert(d.take(i - from + 1).drop_last() =~= d.take(i - from));
            assert(d.take(i - from + 1).last() == d[i - from]);
            assert(d[i - from] == s@[i as int]);
        }
        if acc > (usize::MAX - dv) / 10 {
            proof {
                assert(spec_dec_val(d.take(i - from + 1)) == acc * 10 + dv);
                assert(spec_dec_val(d.take(i - from + 1)) > usize::MAX);
                if (forall|j: int| 0 <= j < d.len() ==> spec_is_digit(#[trigger] d[j])) {
                    lemma_dec_val_grows(d, i - from + 1);
                }
            }
            return None;
        }
        acc = acc * 10 + dv;
        i = i + 1;
    }
    proof {
        assert(d.take(i - from) =~= d);
    }
    Some(acc)
}

/// What `str::parse::<usize>` returns on this text.
pub fn parse_usize(s: &str) -> (r: Option<usize>)
    ensures
        r == spec_parse_usize(s@),
{
    let n = s.unicode_len();
    if n == 0 {
        return None;
    }
    let first = s.get_char(0);
    if first == '+' {
        proof {
            assert(spec_digit_part(s@) =~= s@.skip(1));
        }
        if n == 1 {
            proof {
                assert(s@.skip(1).len() == 0);
            }
            return None;
        }
        let r = parse_digits(s, 1);
        r
    } else {
        proof {
            assert(spec_digit_part(s@) =~= s@.skip(0));
            assert(s@.skip(0) =~= s@);
        }
        let r = parse_digits(s, 0);
        proof {
            if r is None {
            } else {
                assert(s@.skip(0).len() > 0);
            }
        }
        r
    }
}

} // verus!
