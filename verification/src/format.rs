use vstd::prelude::*;
use crate::text::string_from_chars;

verus! {

/// The decimal digit for `d` (`0 <= d < 10`).
pub open spec fn digit_char(d: nat) -> char {
    (('0' as u32) + d) as char
}

/// `n` written in decimal, without leading zeros.
pub open spec fn decimal(n: nat) -> Seq<char>
    decreases n,
{
    if n < 10 {
        seq![digit_char(n)]
    } else {
        decimal(n / 10).push(digit_char(n % 10))
    }
}

/// `n` written in decimal.
pub fn usize_to_decimal(n: usize) -> (s: String)
    ensures
        s@ == decimal(n as nat),
{
    u128_to_decimal(n as u128)
}

/// `n` written in decimal.
pub fn u128_to_decimal(n: u128) -> (s: String)
    ensures
        s@ == decimal(n as nat),
{
    let mut digits: Vec<char> = Vec::new();
    let mut rest: u128 = n;
    // Digits are collected least significant first.
    while rest >= 10
        invariant
            decimal(n as nat) == decimal(rest as nat) + digits@.reverse(),
        decreases rest,
    {
        let d = rest % 10;
        let c = char_for_digit(d);
        let ghost before = digits@;
        digits.push(c);
        assert(digits@.reverse() =~= seq![c] + before.reverse());
        assert(decimal(rest as nat) == decimal((rest / 10) as nat).push(c));
        assert(decimal((rest / 10) as nat).push(c) + before.reverse() =~= decimal((rest / 10) as nat) + digits@.reverse());
        rest = rest / 10;
    }
    let c = char_for_digit(rest);
    let mut out: Vec<char> = Vec::new();
    out.push(c);
    let mut i: usize = digits.len();
    while i > 0
        invariant
            i <= digits.len(),
            out@ == seq![c] + digits@.subrange(i as int, digits@.len() as int).reverse(),
        decreases i,
    {
        i = i - 1;
        let ghost before = out@;
        out.push(digits[i]);
        assert(digits@.subrange(i as int, digits@.len() as int).reverse() =~= digits@.subrange(i + 1, digits@.len() as int).reverse().push(digits@[i as int]));
        assert(out@ =~= seq![c] + digits@.subrange(i as int, digits@.len() as int).reverse());
    }
    assert(digits@.subrange(0, digits@.len() as int) =~= digits@);
    assert(decimal(rest as nat) == seq![c]);
    string_from_chars(&out)
}

fn char_for_digit(d: u128) -> (c: char)
    requires
        d < 10,
    ensures
        c == digit_char(d as nat),
{
    if d == 0 { '0' }
    else if d == 1 { '1' }
    else if d == 2 { '2' }
    else if d == 3 { '3' }
    else if d == 4 { '4' }
    else if d == 5 { '5' }
    else if d == 6 { '6' }
    else if d == 7 { '7' }
    else if d == 8 { '8' }
    else { '9' }
}

/// A list of numbers as Rust's `Debug` writes it: `[1, 2, 3]`.
pub open spec fn debug_list(items: Seq<usize>) -> Seq<char> {
    "["@ + debug_list_items(items) + "]"@
}

/// The numbers of a list in decimal, separated by `, `.
pub open spec fn debug_list_items(items: Seq<usize>) -> Seq<char>
    decreases items.len(),
{
    if items.len() == 0 {
        seq![]
    } else if items.len() == 1 {
        decimal(items[0] as nat)
    } else {
        debug_list_items(items.drop_last()) + ", "@ + decimal(items.last() as nat)
    }
}

/// Appends `tail` to `s`.
pub fn append_str(s: &mut String, tail: &str)
    ensures
        final(s)@ == old(s)@ + tail@,
{
    s.append(tail);
}

/// Writes a list of numbers as Rust's `Debug` does: `[1, 2, 3]`.
pub fn debug_usize_list(items: &Vec<usize>) -> (s: String)
    ensures
        s@ == debug_list(items@),
{
    let mut s = String::from_str("[");
    let mut i: usize = 0;
    while i < items.len()
        invariant
            i <= items.len(),
            s@ == "["@ + debug_list_items(items@.take(i as int)),
        decreases items.len() - i,
    {
        assert(items@.take(i + 1).drop_last() =~= items@.take(i as int));
        if i > 0 {
            append_str(&mut s, ", ");
        }
        let digits = usize_to_decimal(items[i]);
        append_str(&mut s, digits.as_str());
        proof {
            if i == 0 {
                assert(debug_list_items(items@.take(0)) =~= Seq::<char>::empty());
                assert(s@ =~= "["@ + debug_list_items(items@.take(1)));
            } else {
                assert(s@ =~= "["@ + debug_list_items(items@.take(i + 1)));
            }
        }
        i = i + 1;
    }
    append_str(&mut s, "]");
    assert(items@.take(i as int) =~= items@);
    s
}

} // verus!
