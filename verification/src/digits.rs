//! Decimal text for 64-bit integers: the form message ids and update
//! sequence numbers take inside an identity key, and the reading of a
//! conversation number out of a callback's `chat_instance` field.

use vstd::prelude::*;
use vstd::string::StringExecFns;

verus! {

/// The character for a single decimal digit value.
pub open spec fn digit_char(d: nat) -> char {
    if d == 0 {
        '0'
    } else if d == 1 {
        '1'
    } else if d == 2 {
        '2'
    } else if d == 3 {
        '3'
    } else if d == 4 {
        '4'
    } else if d == 5 {
        '5'
    } else if d == 6 {
        '6'
    } else if d == 7 {
        '7'
    } else if d == 8 {
        '8'
    } else {
        '9'
    }
}

/// The decimal digit sequence of a natural number, most significant first,
/// with no leading zeros (a single `'0'` for zero).
pub open spec fn dec_digits(n: nat) -> Seq<char>
    decreases n,
{
    if n < 10 {
        seq![digit_char(n)]
    } else {
        dec_digits(n / 10) + seq![digit_char(n % 10)]
    }
}

/// The decimal text of a (possibly negative) integer.
pub open spec fn dec_int(v: int) -> Seq<char> {
    if v >= 0 {
        dec_digits(v as nat)
    } else {
        seq!['-'] + dec_digits((-v) as nat)
    }
}

/// One decimal digit as a string slice.
fn digit_str(d: u64) -> (r: &'static str)
    requires
        d < 10,
    ensures
        r@ == seq![digit_char(d as nat)],
{
    let r: &'static str = if d == 0 {
        "0"
    } else if d == 1 {
        "1"
    } else if d == 2 {
        "2"
    } else if d == 3 {
        "3"
    } else if d == 4 {
        "4"
    } else if d == 5 {
        "5"
    } else if d == 6 {
        "6"
    } else if d == 7 {
        "7"
    } else if d == 8 {
        "8"
    } else {
        "9"
    };
    proof {
        reveal_strlit("0");
        reveal_strlit("1");
        reveal_strlit("2");
        reveal_strlit("3");
        reveal_strlit("4");
        reveal_strlit("5");
        reveal_strlit("6");
        reveal_strlit("7");
        reveal_strlit("8");
        reveal_strlit("9");
        assert(r@ =~= seq![digit_char(d as nat)]);
    }
    r
}

/// Appends the decimal digits of `n` to `out`, most significant first.
fn push_decimal_u64(n: u64, out: &mut String)
    ensures
        final(out)@ == old(out)@ + dec_digits(n as nat),
    decreases n,
{
    if n >= 10 {
        push_decimal_u64(n / 10, out);
    }
    let s = digit_str(n % 10);
    out.append(s);
    proof {
        assert(final(out)@ =~= old(out)@ + dec_digits(n as nat));
    }
}

/// The decimal text of `v`, as `i64::to_string` renders it.
pub fn int64_to_decimal(v: i64) -> (r: String)
    ensures
        r@ == dec_int(v as int),
{
    let mut out = String::new();
    if v >= 0 {
        push_decimal_u64(v as u64, &mut out);
    } else {
        out.append("-");
        // The magnitude of `v`; `-(v + 1) + 1` avoids overflow at `i64::MIN`.
        let mag: u64 = ((-(v + 1)) as u64) + 1;
        push_decimal_u64(mag, &mut out);
        proof {
            reveal_strlit("-");
            assert(out@ =~= dec_int(v as int));
        }
    }
    out
}

/// Whether `c` is a decimal digit.
pub open spec fn is_dec_digit(c: char) -> bool {
    48 <= c as int <= 57
}

/// The numeric value of a decimal digit character.
pub open spec fn digit_val(c: char) -> int {
    c as int - 48
}

/// Whether every character of `s` is a decimal digit.
pub open spec fn all_digits(s: Seq<char>) -> bool {
    forall|i: int| 0 <= i < s.len() ==> is_dec_digit(#[trigger] s[i])
}

/// The value of a digit sequence read most significant first.
pub open spec fn digits_value(s: Seq<char>) -> int
    decreases s.len(),
{
    if s.len() == 0 {
        0
    } else {
        digits_value(s.drop_last()) * 10 + digit_val(s.last())
    }
}

/// The number a piece of text denotes, with the grammar of `i64`'s
/// `FromStr`: an optional `'+'` or `'-'` sign, then one or more decimal
/// digits, nothing else, and a value within `i64`'s range.
pub open spec fn parse_i64(s: Seq<char>) -> Option<int> {
    let signed = s.len() > 0 && (s[0] == '+' || s[0] == '-');
    let body = if signed {
        s.subrange(1, s.len() as int)
    } else {
        s
    };
    let neg = s.len() > 0 && s[0] == '-';
    if body.len() > 0 && all_digits(body) {
        let v = if neg {
            -digits_value(body)
        } else {
            digits_value(body)
        };
        if i64::MIN <= v <= i64::MAX {
            Some(v)
        } else {
            None
        }
    } else {
        None
    }
}

/// The parsed value of `s`, or zero where `s` does not denote an `i64`.
pub open spec fn parse_or_zero(s: Seq<char>) -> int {
    match parse_i64(s) {
        Some(v) => v,
        None => 0,
    }
}

proof fn lemma_digits_value_nonneg(s: Seq<char>)
    requires
        all_digits(s),
    ensures
        digits_value(s) >= 0,
    decreases s.len(),
{
    if s.len() > 0 {
        assert(all_digits(s.drop_last()));
        lemma_digits_value_nonneg(s.drop_last());
    }
}

/// Reading more digits never shrinks the value already read.
proof fn lemma_digits_value_prefix(s: Seq<char>, k: int)
    requires
        all_digits(s),
        0 <= k <= s.len(),
    ensures
        digits_value(s.subrange(0, k)) <= digits_value(s),
    decreases s.len() - k,
{
    if k < s.len() {
        let t = s.subrange(0, k + 1);
        assert(all_digits(t));
        assert(t.drop_last() =~= s.subrange(0, k));
        lemma_digits_value_nonneg(s.subrange(0, k));
        assert(digits_value(s.subrange(0, k)) <= digits_value(t));
        lemma_digits_value_prefix(s, k + 1);
        assert(s.subrange(0, k + 1) == t);
    } else {
        assert(s.subrange(0, k) =~= s);
    }
}

/// A decimal rendering is never empty and holds digits only.
pub proof fn lemma_dec_digits_shape(n: nat)
    ensures
        dec_digits(n).len() > 0,
        all_digits(dec_digits(n)),
    decreases n,
{
    if n < 10 {
        assert(is_dec_digit(digit_char(n)));
        assert(all_digits(seq![digit_char(n)]));
    } else {
        lemma_dec_digits_shape(n / 10);
        let s = dec_digits(n / 10);
        let whole = s + seq![digit_char(n % 10)];
        assert forall|i: int| 0 <= i < whole.len() implies is_dec_digit(#[trigger] whole[i]) by {
            if i < s.len() {
                assert(whole[i] == s[i]);
            } else {
                assert(whole[i] == digit_char(n % 10));
                assert(is_dec_digit(digit_char(n % 10)));
            }
        }
    }
}

/// The rendering of `n` reads back as `n`.
pub proof fn lemma_dec_digits_value(n: nat)
    ensures
        digits_value(dec_digits(n)) == n,
    decreases n,
{
    if n < 10 {
        reveal_with_fuel(digits_value, 2);
        let s = seq![digit_char(n)];
        assert(s.drop_last() =~= Seq::<char>::empty());
        assert(digits_value(s) == digit_val(digit_char(n)));
    } else {
        lemma_dec_digits_value(n / 10);
        let s = dec_digits(n / 10);
        let whole = s + seq![digit_char(n % 10)];
        assert(whole.drop_last() =~= s);
        assert(whole.last() == digit_char(n % 10));
        assert(digits_value(whole) == digits_value(s) * 10 + digit_val(digit_char(n % 10)));
        assert(digit_val(digit_char(n % 10)) == n % 10);
        assert((n / 10) * 10 + n % 10 == n) by {
            vstd::arithmetic::div_mod::lemma_fundamental_div_mod(n as int, 10);
        }
    }
}

/// Distinct integers render as distinct decimal text: identity keys
/// built from different message ids never coincide.
pub proof fn lemma_dec_int_injective(a: int, b: int)
    requires
        dec_int(a) == dec_int(b),
    ensures
        a == b,
{
    if a >= 0 {
        lemma_dec_digits_shape(a as nat);
        lemma_dec_digits_value(a as nat);
    } else {
        lemma_dec_digits_shape((-a) as nat);
        lemma_dec_digits_value((-a) as nat);
    }
    if b >= 0 {
        lemma_dec_digits_shape(b as nat);
        lemma_dec_digits_value(b as nat);
    } else {
        lemma_dec_digits_shape((-b) as nat);
        lemma_dec_digits_value((-b) as nat);
    }
    if a >= 0 && b >= 0 {
        assert(digits_value(dec_digits(a as nat)) == digits_value(dec_digits(b as nat)));
    } else if a >= 0 && b < 0 {
        // A nonnegative rendering starts with a digit, a negative one
        // with the minus sign.
        assert(dec_int(a)[0] == dec_digits(a as nat)[0]);
        assert(is_dec_digit(dec_int(a)[0]));
        assert(dec_int(b)[0] == '-');
        assert(false);
    } else if a < 0 && b >= 0 {
        assert(dec_int(b)[0] == dec_digits(b as nat)[0]);
        assert(is_dec_digit(dec_int(b)[0]));
        assert(dec_int(a)[0] == '-');
        assert(false);
    } else {
        let sa = dec_digits((-a) as nat);
        let sb = dec_digits((-b) as nat);
        assert(sa =~= dec_int(a).subrange(1, dec_int(a).len() as int));
        assert(sb =~= dec_int(b).subrange(1, dec_int(b).len() as int));
        assert(digits_value(sa) == digits_value(sb));
    }
}

/// The numeric value of `s`, with the grammar of `i64`'s `FromStr`, or
/// zero where `s` does not denote an `i64` (a sign without digits, a
/// non-digit character, a value out of range).
pub fn parse_i64_or_zero(s: &str) -> (r: i64)
    ensures
        r as int == parse_or_zero(s@),
{
    let n = s.unicode_len();
    let ghost full = s@;
    let (neg, start): (bool, usize) = if n > 0 {
        let c0 = s.get_char(0);
        if c0 == '-' {
            (true, 1)
        } else if c0 == '+' {
            (false, 1)
        } else {
            (false, 0)
        }
    } else {
        (false, 0)
    };
    let ghost body = if start == 1 {
        full.subrange(1, full.len() as int)
    } else {
        full
    };
    if n == start {
        return 0;
    }
    let mut mag: u64 = 0;
    let mut i: usize = start;
    while i < n
        invariant
            start <= 1,
            start <= i <= n,
            n == full.len(),
            start == 1 ==> full.len() > 0 && (full[0] == '+' || full[0] == '-'),
            start == 0 ==> full.len() == 0 || !(full[0] == '+' || full[0] == '-'),
            body == (if start == 1 {
                full.subrange(1, full.len() as int)
            } else {
                full
            }),
            all_digits(body.subrange(0, i - start)),
            mag as int == digits_value(body.subrange(0, i - start)),
            s@ == full,
        decreases n - i,
    {
        let c = s.get_char(i);
        let u = c as u32;
        let ghost pre = body.subrange(0, i - start);
        if u < 48 || u > 57 {
            // A non-digit character: the text denotes no number.
            proof {
                assert(c == full[i as int]);
                assert(body[i - start] == full[i as int]);
                assert(c as int == u as int);
                assert(!is_dec_digit(body[i - start]));
            }
            return 0;
        }
        let d = (u - 48) as u64;
        proof {
            assert(body.subrange(0, i + 1 - start).drop_last() =~= pre);
            assert(all_digits(body.subrange(0, i + 1 - start)));
        }
        if mag > (u64::MAX - d) / 10 {
            // The digits read so far already exceed any `i64`: the rest
            // of the digits can only push the value further up.
            proof {
                let here = body.subrange(0, i + 1 - start);
                assert(digits_value(here) == mag as int * 10 + d);
                assert(digits_value(here) > u64::MAX as int);
                if all_digits(body) {
                    lemma_digits_value_prefix(body, i + 1 - start);
                    assert(digits_value(body) > u64::MAX as int);
                }
            }
            return 0;
        }
        mag = mag * 10 + d;
        i = i + 1;
        proof {
            assert(body.subrange(0, i - start).drop_last() =~= pre);
        }
    }
    proof {
        assert(body.subrange(0, n - start) =~= body);
    }
    if neg {
        if mag > 9223372036854775808u64 {
            return 0;
        }
        if mag == 9223372036854775808u64 {
            return i64::MIN;
        }
        return -(mag as i64);
    }
    if mag > 9223372036854775807u64 {
        return 0;
    }
    mag as i64
}



} // verus!
