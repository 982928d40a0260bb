//! The text of the line-number gutter.

use vstd::prelude::*;
use crate::text::{concat2, string_push};
use crate::hex::decimal_width;

verus! {

/// A line number and the width it is padded to.
#[derive(Clone, Copy, Debug, PartialEq, Eq, Hash, Structural)]
pub struct LineNumberKey {
    pub number: usize,
    pub width: usize,
}

/// The decimal digit character for a value below ten.
pub open spec fn digit_char(d: nat) -> char {
    seq!['0', '1', '2', '3', '4', '5', '6', '7', '8', '9'][d as int]
}

/// The decimal text of `n`, without leading zeros.
pub open spec fn decimal_spec(n: nat) -> Seq<char>
    decreases n,
{
    if n < 10 {
        seq![digit_char(n)]
    } else {
        decimal_spec(n / 10).push(digit_char(n % 10))
    }
}

/// `count` spaces.
pub open spec fn spaces(count: nat) -> Seq<char> {
    Seq::new(count, |i: int| ' ')
}

/// `format!("{:width$}", number)`: the decimal text of `number`, padded on
/// the left with spaces to `width` characters.
pub open spec fn line_number_text_spec(number: nat, width: nat) -> Seq<char> {
    let d = decimal_spec(number);
    if d.len() < width { spaces((width - d.len()) as nat) + d } else { d }
}

/// Writes `n` in decimal.
pub fn decimal_text(n: usize) -> (r: String)
    ensures
        r@ == decimal_spec(n as nat),
    decreases n,
{
    let digits = "0123456789";
    proof {
        reveal_strlit("0123456789");
    }
    assert(digits@ =~= seq!['0', '1', '2', '3', '4', '5', '6', '7', '8', '9']);
    if n < 10 {
        let one = digits.substring_char(n, n + 1);
        assert(one@ =~= seq![digit_char(n as nat)]);
        String::from_str(one)
    } else {
        let mut head = decimal_text(n / 10);
        let d = n % 10;
        let one = digits.substring_char(d, d + 1);
        assert(one@ =~= seq![digit_char(d as nat)]);
        head.append(one);
        head
    }
}

/// The gutter text for `key`: its number right-aligned in `key.width` columns.
pub fn line_number_text(key: LineNumberKey) -> (r: String)
    ensures
        r@ == line_number_text_spec(key.number as nat, key.width as nat),
{
    let d = decimal_text(key.number);
    let len = d.unicode_len();
    if len >= key.width {
        return d;
    }
    let mut pad = String::new();
    let mut i: usize = 0;
    while i < key.width - len
        invariant
            len < key.width,
            i <= key.width - len,
            pad@ == spaces(i as nat),
        decreases key.width - len - i,
    {
        string_push(&mut pad, ' ');
        assert(pad@ =~= spaces((i + 1) as nat));
        i = i + 1;
    }
    concat2(pad.as_str(), d.as_str())
}

proof fn lemma_decimal_len(n: nat)
    ensures
        decimal_spec(n).len() == decimal_width(n),
    decreases n,
{
    if n >= 10 {
        lemma_decimal_len(n / 10);
    }
}

proof fn lemma_decimal_width_monotone(a: nat, b: nat)
    requires
        a <= b,
    ensures
        decimal_width(a) <= decimal_width(b),
    decreases b,
{
    if a >= 10 {
        lemma_decimal_width_monotone(a / 10, b / 10);
    }
}

/// Law: padded to the width of the last line's number, every line number up
/// to it takes exactly that many columns, so the gutter's numbers line up.
pub proof fn lemma_line_numbers_align(number: nat, last: nat)
    requires
        number <= last,
    ensures
        line_number_text_spec(number, decimal_width(last)).len() == decimal_width(last),
{
    lemma_decimal_len(number);
    lemma_decimal_width_monotone(number, last);
}

} // verus!
