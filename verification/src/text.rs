//! Text building blocks: decimal numerals and separated lists.

use itertools::Itertools;
use vstd::prelude::*;

verus! {

/// The character that stands for the digit `d`.
pub open spec fn digit_char(d: int) -> char {
    if d == 0 {
        '0'
    } else if d == 1 {
        '1'
    } else if d == 2 {
        '2'
    } else if d == 3 {
        '3'
    } else if d == 4 {
        '4'
    } else if d == 5 {
        '5'
    } else if d == 6 {
        '6'
    } else if d == 7 {
        '7'
    } else if d == 8 {
        '8'
    } else {
        '9'
    }
}

/// The decimal numeral of `n`: no sign, no leading zero.
pub open spec fn decimal(n: nat) -> Seq<char>
    decreases n,
{
    if n < 10 {
        seq![digit_char(n as int)]
    } else {
        decimal(n / 10).push(digit_char((n % 10) as int))
    }
}

/// The decimal numeral of `n`, with a leading minus sign where `n` is negative.
pub open spec fn signed_decimal(n: int) -> Seq<char> {
    if n < 0 {
        seq!['-'] + decimal((-n) as nat)
    } else {
        decimal(n as nat)
    }
}

/// The parts in order, with `sep` between each two neighbours.
pub open spec fn joined(parts: Seq<Seq<char>>, sep: Seq<char>) -> Seq<char>
    decreases parts.len(),
{
    if parts.len() == 0 {
        Seq::empty()
    } else if parts.len() == 1 {
        parts[0]
    } else {
        joined(parts.drop_last(), sep) + sep + parts.last()
    }
}

/// The decimal numerals of `items`, in order.
pub open spec fn numerals(items: Seq<u64>) -> Seq<Seq<char>> {
    Seq::new(items.len(), |i: int| decimal(items[i] as nat))
}

/// The views of `items`, in order.
pub open spec fn text_views(items: Seq<String>) -> Seq<Seq<char>> {
    Seq::new(items.len(), |i: int| items[i]@)
}

/// Calls `ToString::to_string` of std on an integer. Trusted: the text is the
/// decimal numeral of `n`, with a minus sign in front where `n` is negative.
#[verifier::external_body]
pub(crate) fn integer_text(n: i128) -> (s: String)
    ensures
        s@ == signed_decimal(n as int),
{
    n.to_string()
}

/// Calls `Itertools::join` on the numbers of `items`. Trusted: the text holds
/// the decimal numeral of each number, in order, with `sep` between each two.
#[verifier::external_body]
pub(crate) fn join_numbers(items: &Vec<u64>, sep: &str) -> (s: String)
    ensures
        s@ == joined(numerals(items@), sep@),
{
    items.iter().join(sep)
}

/// Calls `Itertools::join` on the strings of `items`. Trusted: the text holds
/// each string, in order, with `sep` between each two.
#[verifier::external_body]
pub(crate) fn join_texts(items: &Vec<String>, sep: &str) -> (s: String)
    ensures
        s@ == joined(text_views(items@), sep@),
{
    items.iter().join(sep)
}

/// The three texts, one after the other.
pub(crate) fn framed(before: &str, middle: &str, after: &str) -> (s: String)
    ensures
        s@ == before@ + middle@ + after@,
{
    let mut s = String::from_str(before);
    s.append(middle);
    s.append(after);
    s
}

} // verus!
