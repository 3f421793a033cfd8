//! Numbers as they are shown.

use vstd::prelude::*;

use crate::text;
use crate::text::decimal_of;

verus! {

/// Digits with a comma before every group of three that others precede.
pub open spec fn grouped(digits: Seq<char>) -> Seq<char>
    decreases digits.len(),
{
    if digits.len() <= 3 {
        digits
    } else {
        grouped(digits.take(digits.len() - 3)) + ","@ + digits.skip(digits.len() - 3)
    }
}

fn group_digits(digits: &str, len: usize) -> (r: String)
    requires
        len <= digits@.len(),
    ensures
        r@ == grouped(digits@.take(len as int)),
    decreases len,
{
    let ghost part = digits@.take(len as int);
    if len <= 3 {
        let r = text::part_of(digits, 0, len);
        assert(r@ =~= part);
        r
    } else {
        let mut r = group_digits(digits, len - 3);
        r.append(",");
        let last = text::part_of(digits, len - 3, len);
        r.append(last.as_str());
        assert(part.take(len - 3) =~= digits@.take(len - 3));
        assert(part.skip(len - 3) =~= last@);
        r
    }
}

/// Writes a number with its digits in groups of three.
pub fn fmt_int(n: u64) -> (r: String)
    ensures
        r@ == grouped(decimal_of(n as nat)),
{
    let digits = text::decimal(n);
    let len: usize = text::letters(digits.as_str()).len();
    assert(digits@.take(len as int) =~= digits@);
    group_digits(digits.as_str(), len)
}

/// The unit in which a number of tokens is shown.
#[derive(Debug, Clone, Copy, PartialEq, Eq, Structural)]
pub enum TokenUnit {
    One,
    Thousand,
    Million,
    Billion,
}

/// The largest unit that a number of tokens reaches.
pub open spec fn unit_of(n: u64) -> TokenUnit {
    if n >= 1_000_000_000 {
        TokenUnit::Billion
    } else if n >= 1_000_000 {
        TokenUnit::Million
    } else if n >= 1_000 {
        TokenUnit::Thousand
    } else {
        TokenUnit::One
    }
}

/// Finds the unit in which a number of tokens is shown.
pub fn token_unit(n: u64) -> (r: TokenUnit)
    ensures
        r == unit_of(n),
{
    if n >= 1_000_000_000 {
        TokenUnit::Billion
    } else if n >= 1_000_000 {
        TokenUnit::Million
    } else if n >= 1_000 {
        TokenUnit::Thousand
    } else {
        TokenUnit::One
    }
}

/// An amount of cents as dollars.
pub open spec fn dollars(negative: bool, cents: u64) -> Seq<char> {
    let sign = if negative {
        "-"@
    } else {
        ""@
    };
    let rest = decimal_of((cents % 100) as nat);
    sign + "$"@ + grouped(decimal_of((cents / 100) as nat)) + if cents % 100 < 10 {
        ".0"@
    } else {
        "."@
    } + rest
}

/// Writes an amount of cents as dollars.
pub fn fmt_cents(negative: bool, cents: u64) -> (r: String)
    ensures
        r@ == dollars(negative, cents),
{
    let mut r = if negative {
        "-".to_owned()
    } else {
        "".to_owned()
    };
    r.append("$");
    r.append(fmt_int(cents / 100).as_str());
    if cents % 100 < 10 {
        r.append(".0");
    } else {
        r.append(".");
    }
    r.append(text::decimal(cents % 100).as_str());
    r
}

} // verus!
