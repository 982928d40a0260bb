//! Hexadecimal and decimal text for the identifiers the editor writes into
//! file names, and the parser that reads them back.

use vstd::arithmetic::div_mod::{lemma_div_denominator, lemma_mod_breakdown, lemma_fundamental_div_mod};
use vstd::arithmetic::power::{pow, lemma_pow_positive};
use vstd::prelude::*;

verus! {

/// The value of a hexadecimal digit, either case.
pub open spec fn hex_digit_value(c: char) -> Option<nat> {
    if '0' <= c && c <= '9' {
        Some((c as nat - '0' as nat) as nat)
    } else if 'a' <= c && c <= 'f' {
        Some((c as nat - 'a' as nat + 10) as nat)
    } else if 'A' <= c && c <= 'F' {
        Some((c as nat - 'A' as nat + 10) as nat)
    } else {
        None
    }
}

pub open spec fn all_hex_digits(s: Seq<char>) -> bool {
    forall|i: int| 0 <= i < s.len() ==> (#[trigger] hex_digit_value(s[i])) is Some
}

/// The number written by a string of hexadecimal digits, most significant first.
pub open spec fn hex_value(s: Seq<char>) -> nat
    decreases s.len(),
{
    if s.len() == 0 {
        0
    } else {
        hex_value(s.drop_last()) * 16 + match hex_digit_value(s.last()) {
            Some(d) => d,
            None => 0,
        }
    }
}

/// What `u64::from_str_radix(s, 16)` accepts and returns: an optional `+`
/// followed by at least one hexadecimal digit, whose value fits in 64 bits.
pub open spec fn parse_hex_spec(s: Seq<char>) -> Option<u64> {
    let digits = if s.len() > 0 && s[0] == '+' { s.drop_first() } else { s };
    if digits.len() == 0 || !all_hex_digits(digits) || hex_value(digits) > u64::MAX {
        None
    } else {
        Some(hex_value(digits) as u64)
    }
}

/// The lowercase hexadecimal digit for a value below 16.
pub open spec fn hex_char(d: nat) -> char {
    seq!['0', '1', '2', '3', '4', '5', '6', '7', '8', '9', 'a', 'b', 'c', 'd', 'e', 'f'][d as int]
}

/// The lowest `k` hexadecimal digits of `v`, most significant first, padded
/// with zeros: the text of `format!("{:0k$x}", v)` when `v < 16^k`.
pub open spec fn hex_digits(v: nat, k: nat) -> Seq<char>
    decreases k,
{
    if k == 0 {
        Seq::empty()
    } else {
        seq![hex_char((v / pow(16, (k - 1) as nat) as nat) % 16)] + hex_digits(v, (k - 1) as nat)
    }
}

/// The sixteen-digit lowercase form `{:016x}` in which the editor writes a session id.
pub open spec fn hex16(v: u64) -> Seq<char> {
    hex_digits(v as nat, 16)
}

proof fn lemma_hex_value_prepend(c: char, s: Seq<char>)
    requires
        hex_digit_value(c) is Some,
    ensures
        hex_value(seq![c] + s) == hex_digit_value(c)->0 * pow(16, s.len()) + hex_value(s),
    decreases s.len(),
{
    let t = seq![c] + s;
    let d = hex_digit_value(c)->0;
    if s.len() == 0 {
        assert(t.drop_last() =~= Seq::<char>::empty());
        assert(t.last() == c);
        assert(hex_value(Seq::<char>::empty()) == 0);
        assert(hex_value(t) == d);
        assert(pow(16, 0) == 1) by { reveal(pow); }
    } else {
        assert(t.drop_last() =~= seq![c] + s.drop_last());
        lemma_hex_value_prepend(c, s.drop_last());
        assert(t.last() == s.last());
        let p = pow(16, (s.len() - 1) as nat);
        assert(pow(16, s.len()) == 16 * p) by { reveal(pow); }
        let e = match hex_digit_value(s.last()) { Some(x) => x, None => 0 };
        let h = hex_value(s.drop_last());
        assert(hex_value(s) == h * 16 + e);
        assert(hex_value(t) == (d * p + h) * 16 + e);
        assert((d * p + h) * 16 == d * (16 * p) + h * 16) by (nonlinear_arith);
    }
}

proof fn lemma_hex_char_digit(d: nat)
    requires
        d < 16,
    ensures
        hex_digit_value(hex_char(d)) == Some(d),
{
    if d == 0 {} else if d == 1 {} else if d == 2 {} else if d == 3 {}
    else if d == 4 {} else if d == 5 {} else if d == 6 {} else if d == 7 {}
    else if d == 8 {} else if d == 9 {} else if d == 10 {} else if d == 11 {}
    else if d == 12 {} else if d == 13 {} else if d == 14 {} else {}
}

proof fn lemma_hex_digits_props(v: nat, k: nat)
    ensures
        hex_digits(v, k).len() == k,
        all_hex_digits(hex_digits(v, k)),
        hex_value(hex_digits(v, k)) == v % (pow(16, k) as nat),
    decreases k,
{
    lemma_pow_positive(16, k);
    if k == 0 {
        assert(pow(16, 0) == 1) by { reveal(pow); }
        assert(v % 1 == 0);
    } else {
        let km = (k - 1) as nat;
        lemma_hex_digits_props(v, km);
        let p = pow(16, km);
        lemma_pow_positive(16, km);
        assert(pow(16, k) == p * 16) by { reveal(pow); }
        let d = (v / p as nat) % 16;
        assert(d < 16);
        lemma_hex_char_digit(d);
        let rest = hex_digits(v, km);
        assert(hex_digits(v, k) =~= seq![hex_char(d)] + rest);
        assert forall|i: int| 0 <= i < hex_digits(v, k).len() implies (#[trigger] hex_digit_value(hex_digits(v, k)[i])) is Some by {
            if i > 0 {
                assert(hex_digits(v, k)[i] == rest[i - 1]);
            }
        }
        lemma_hex_value_prepend(hex_char(d), rest);
        assert(hex_value(hex_digits(v, k)) == d * p + v % (p as nat));
        lemma_mod_breakdown(v as int, p, 16);
        assert(v % ((p * 16) as nat) == p * ((v / (p as nat)) % 16) + v % (p as nat));
        assert(d * p == p * d) by (nonlinear_arith);
    }
}

/// Law: the sixteen-digit form of an id reads back as the same id.
pub proof fn lemma_hex16_round_trip(v: u64)
    ensures
        hex16(v).len() == 16,
        all_hex_digits(hex16(v)),
        parse_hex_spec(hex16(v)) == Some(v),
{
    lemma_hex_digits_props(v as nat, 16);
    assert(pow(16, 16) == 0x1_0000_0000_0000_0000) by {
        reveal_with_fuel(pow, 17);
    }
    let s = hex16(v);
    assert(hex_digit_value(s[0]) is Some);
    assert(s[0] != '+');
    vstd::arithmetic::div_mod::lemma_small_mod(v as nat, 0x1_0000_0000_0000_0000);
}

/// The value of a single hexadecimal digit, or `None` for any other character.
pub fn hex_digit(c: char) -> (r: Option<u8>)
    ensures
        match hex_digit_value(c) {
            Some(d) => r == Some(d as u8),
            None => r is None,
        },
{
    if '0' <= c && c <= '9' {
        Some(((c as u32) - ('0' as u32)) as u8)
    } else if 'a' <= c && c <= 'f' {
        Some(((c as u32) - ('a' as u32) + 10) as u8)
    } else if 'A' <= c && c <= 'F' {
        Some(((c as u32) - ('A' as u32) + 10) as u8)
    } else {
        None
    }
}

proof fn lemma_hex_value_prefix_monotone(s: Seq<char>, i: int)
    requires
        0 <= i <= s.len(),
        all_hex_digits(s),
    ensures
        hex_value(s.take(i)) <= hex_value(s),
    decreases s.len() - i,
{
    if i < s.len() {
        lemma_hex_value_prefix_monotone(s, i + 1);
        let t = s.take(i + 1);
        assert(t.drop_last() =~= s.take(i));
    } else {
        assert(s.take(i) =~= s);
    }
}

/// Parses hexadecimal text as `u64::from_str_radix(s, 16)` does.
pub fn parse_hex_u64(s: &str) -> (r: Option<u64>)
    ensures
        r == parse_hex_spec(s@),
{
    let n = s.unicode_len();
    if n == 0 {
        return None;
    }
    let mut start: usize = 0;
    if s.get_char(0) == '+' {
        start = 1;
    }
    if start == n {
        return None;
    }
    let ghost digits = if s@[0] == '+' { s@.drop_first() } else { s@ };
    assert(digits =~= s@.subrange(start as int, n as int));
    let mut val: u64 = 0;
    let mut i: usize = start;
    while i < n
        invariant
            start <= i <= n,
            n == s@.len(),
            start < n,
            s@.len() > 0,
            start == 1 <==> s@[0] == '+',
            start <= 1,
            digits == (if s@[0] == '+' { s@.drop_first() } else { s@ }),
            digits =~= s@.subrange(start as int, n as int),
            all_hex_digits(digits.take(i - start)),
            val as nat == hex_value(digits.take(i - start)),
        decreases n - i,
    {
        let c = s.get_char(i);
        let ghost k = (i - start) as int;
        assert(digits[k] == c);
        match hex_digit(c) {
            None => {
                assert(!all_hex_digits(digits)) by {
                    assert(hex_digit_value(digits[k]) is None);
                }
                return None;
            }
            Some(d) => {
                assert(digits.take(k + 1).drop_last() =~= digits.take(k));
                assert(digits.take(k + 1).last() == c);
                assert forall|j: int| 0 <= j < k + 1 implies (#[trigger] hex_digit_value(digits.take(k + 1)[j])) is Some by {
                    if j < k {
                        assert(digits.take(k + 1)[j] == digits.take(k)[j]);
                    }
                }
                if val > (u64::MAX - d as u64) / 16 {
                    proof {
                        assert(hex_value(digits.take(k + 1)) == val * 16 + d);
                        assert(val * 16 + d > u64::MAX) by (nonlinear_arith)
                            requires val > (u64::MAX - d as u64) / 16, d < 16;
                        if all_hex_digits(digits) {
                            lemma_hex_value_prefix_monotone(digits, k + 1);
                        }
                    }
                    return None;
                }
                assert(val * 16 + d <= u64::MAX) by (nonlinear_arith)
                    requires val <= (u64::MAX - d as u64) / 16, d < 16;
                val = val * 16 + d as u64;
            }
        }
        i = i + 1;
    }
    assert(digits.take(n - start) =~= digits);
    Some(val)
}

/// Writes `v` as sixteen lowercase hexadecimal digits, as `format!("{:016x}", v)` does.
pub fn format_hex16(v: u64) -> (r: String)
    ensures
        r@ == hex16(v),
{
    let digits_text = "0123456789abcdef";
    proof {
        reveal_strlit("0123456789abcdef");
    }
    let mut acc = String::new();
    let mut d: u64 = v;
    let mut k: usize = 0;
    assert(pow(16, 0) == 1) by { reveal(pow); }
    assert(v as nat / 1 == v as nat);
    assert(acc@ =~= hex_digits(v as nat, 0));
    while k < 16
        invariant
            k <= 16,
            digits_text@ == "0123456789abcdef"@,
            digits_text@.len() == 16,
            d as nat == v as nat / (pow(16, k as nat) as nat),
            acc@ == hex_digits(v as nat, k as nat),
        decreases 16 - k,
    {
        let digit = (d % 16) as usize;
        let one = digits_text.substring_char(digit, digit + 1);
        proof {
            reveal_strlit("0123456789abcdef");
            lemma_pow_positive(16, k as nat);
            assert(digits_text@ =~= seq!['0', '1', '2', '3', '4', '5', '6', '7', '8', '9', 'a', 'b', 'c', 'd', 'e', 'f']);
            assert(one@ =~= seq![hex_char(digit as nat)]);
            assert(hex_digits(v as nat, (k + 1) as nat) =~= seq![hex_char(digit as nat)] + hex_digits(v as nat, k as nat));
            lemma_div_denominator(v as int, pow(16, k as nat), 16);
            assert(pow(16, (k + 1) as nat) == 16 * pow(16, k as nat)) by { reveal(pow); }
        }
        let mut next = String::from_str(one);
        next.append(acc.as_str());
        acc = next;
        d = d / 16;
        k = k + 1;
    }
    acc
}

/// Number of decimal digits in `n` (at least one): the width the editor gives
/// to a column of line numbers ending at `n`.
pub open spec fn decimal_width(n: nat) -> nat
    decreases n,
{
    if n < 10 {
        1
    } else {
        1 + decimal_width(n / 10)
    }
}

proof fn lemma_decimal_width_bound(n: nat, k: nat)
    requires
        n < pow(10, k),
        k >= 1,
    ensures
        decimal_width(n) <= k,
    decreases k,
{
    assert(pow(10, k) == 10 * pow(10, (k - 1) as nat)) by { reveal(pow); }
    if n >= 10 {
        if k == 1 {
            assert(pow(10, 0) == 1) by { reveal(pow); }
        } else {
            lemma_decimal_width_bound(n / 10, (k - 1) as nat);
        }
    }
}

/// Counts the decimal digits of `n`, as the line-number gutter does.
pub fn decimal_digits(n: usize) -> (r: usize)
    ensures
        r == decimal_width(n as nat),
{
    proof {
        assert(pow(10, 20) == 100_000_000_000_000_000_000) by {
            reveal_with_fuel(pow, 21);
        }
        lemma_decimal_width_bound(n as nat, 20);
    }
    let mut width: usize = 1;
    let mut m: usize = n;
    while m >= 10
        invariant
            width + decimal_width(m as nat) == 1 + decimal_width(n as nat),
            width <= 1 + decimal_width(n as nat),
            decimal_width(n as nat) <= 20,
            m <= n,
        decreases m,
    {
        m = m / 10;
        width = width + 1;
    }
    width
}

} // verus!
