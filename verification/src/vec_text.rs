//! The text that shows a vector of integers: its items in decimal, with a
//! space between neighbours, in square brackets.

use vstd::prelude::*;

verus! {

/// The character of a decimal digit.
pub open spec fn digit_char(d: nat) -> char
    recommends
        d < 10,
{
    if d == 0 {
        '0'
    } else if d == 1 {
        '1'
    } else if d == 2 {
        '2'
    } else if d == 3 {
        '3'
    } else if d == 4 {
        '4'
    } else if d == 5 {
        '5'
    } else if d == 6 {
        '6'
    } else if d == 7 {
        '7'
    } else if d == 8 {
        '8'
    } else {
        '9'
    }
}

/// The decimal digits of `n`, most significant first, without leading zeros.
pub open spec fn digits(n: nat) -> Seq<char>
    decreases n,
{
    if n < 10 {
        seq![digit_char(n)]
    } else {
        digits(n / 10).push(digit_char(n % 10))
    }
}

/// `value` in decimal, with a minus sign before a negative number.
pub open spec fn decimal_text(value: int) -> Seq<char> {
    if value < 0 {
        seq!['-'] + digits((-value) as nat)
    } else {
        digits(value as nat)
    }
}

/// The items in decimal, with one space between neighbours.
pub open spec fn joined(items: Seq<i32>) -> Seq<char>
    decreases items.len(),
{
    if items.len() == 0 {
        Seq::empty()
    } else if items.len() == 1 {
        decimal_text(items[0] as int)
    } else {
        joined(items.drop_last()) + seq![' '] + decimal_text(items.last() as int)
    }
}

/// How many of `len` items are shown when at most `num_items` are asked
/// for. A negative `num_items` sets no limit.
pub open spec fn shown_count(len: nat, num_items: i32) -> nat {
    if num_items < 0 || num_items >= len {
        len
    } else {
        num_items as nat
    }
}

/// `items` from last to first.
pub open spec fn backwards(items: Seq<char>) -> Seq<char> {
    Seq::new(items.len(), |i: int| items[items.len() - 1 - i])
}

/// The character of the decimal digit `d`.
fn digit(d: u32) -> (r: char)
    requires
        d < 10,
    ensures
        r == digit_char(d as nat),
{
    if d == 0 {
        '0'
    } else if d == 1 {
        '1'
    } else if d == 2 {
        '2'
    } else if d == 3 {
        '3'
    } else if d == 4 {
        '4'
    } else if d == 5 {
        '5'
    } else if d == 6 {
        '6'
    } else if d == 7 {
        '7'
    } else if d == 8 {
        '8'
    } else {
        '9'
    }
}

/// Writes `value` in decimal.
pub fn decimal(value: i32) -> (r: String)
    ensures
        r@ == decimal_text(value as int),
{
    let magnitude: u32 = if value < 0 {
        (-(value as i64)) as u32
    } else {
        value as u32
    };
    // The digits, least significant first.
    let mut reversed: Vec<char> = Vec::new();
    reversed.push(digit(magnitude % 10));
    let mut rest: u32 = magnitude / 10;
    assert(digits(magnitude as nat) =~= if rest > 0 {
        digits(rest as nat) + backwards(reversed@)
    } else {
        backwards(reversed@)
    });
    while rest > 0
        invariant
            reversed@.len() >= 1,
            digits(magnitude as nat) == if rest > 0 {
                digits(rest as nat) + backwards(reversed@)
            } else {
                backwards(reversed@)
            },
        decreases rest,
    {
        let ghost before = reversed@;
        let ghost lead = digits(rest as nat);
        reversed.push(digit(rest % 10));
        proof {
            assert(backwards(reversed@) =~= seq![digit_char((rest % 10) as nat)] + backwards(
                before,
            ));
            if rest >= 10 {
                assert(lead + backwards(before) =~= digits((rest / 10) as nat) + backwards(
                    reversed@,
                ));
            } else {
                assert(lead + backwards(before) =~= backwards(reversed@));
            }
        }
        rest = rest / 10;
    }
    let mut text = String::new();
    if value < 0 {
        text.push('-');
    }
    let ghost sign = text@;
    let mut left: usize = reversed.len();
    while left > 0
        invariant
            left <= reversed@.len(),
            text@ == sign + backwards(reversed@).take(reversed@.len() - left),
        decreases left,
    {
        left -= 1;
        text.push(reversed[left]);
        assert(text@ =~= sign + backwards(reversed@).take(reversed@.len() - left));
    }
    assert(backwards(reversed@).take(reversed@.len() as int) =~= backwards(reversed@));
    text
}

/// The text of the first `num_items` items of `vec`, or of all of them
/// where it has fewer or `num_items` is negative: the items in decimal,
/// separated by one space, between `[` and `]`.
pub fn format_vec(vec: &Vec<i32>, num_items: i32) -> (r: String)
    ensures
        r@ == seq!['['] + joined(vec@.take(shown_count(vec@.len(), num_items) as int)) + seq![']'],
{
    let mut max: usize = vec.len();
    if num_items >= 0 && (num_items as usize) < max {
        max = num_items as usize;
    }
    let mut text = String::new();
    text.push('[');
    if max > 0 {
        let first = decimal(vec[0]);
        text.push_str(first.as_str());
        assert(text@ =~= seq!['['] + joined(vec@.take(1)));
    } else {
        assert(text@ =~= seq!['['] + joined(vec@.take(0)));
    }
    let mut i: usize = 1;
    while i < max
        invariant
            max <= vec.len(),
            1 <= i,
            max > 0 ==> i <= max,
            max > 0 ==> text@ == seq!['['] + joined(vec@.take(i as int)),
            max == 0 ==> text@ == seq!['['] + joined(vec@.take(0)),
        decreases max - i,
    {
        let item = decimal(vec[i]);
        text.push(' ');
        text.push_str(item.as_str());
        i += 1;
        proof {
            let shown = vec@.take(i as int);
            assert(shown.drop_last() =~= vec@.take(i - 1));
            assert(shown.last() == vec@[i - 1]);
            assert(text@ =~= seq!['['] + joined(shown));
        }
    }
    text.push(']');
    text
}

} // verus!
