//! Characters and decimal numbers: what the notation of positions and the
//! commands are read from and written to.

use vstd::prelude::*;

verus! {

/// `std`'s `String::push` appends the character to the string.
pub assume_specification[ String::push ](s: &mut String, c: char)
    ensures
        final(s)@ == old(s)@.push(c),
;

/// The characters of a string.
pub fn chars_of(s: &str) -> (r: Vec<char>)
    ensures
        r@ == s@,
{
    let mut out: Vec<char> = Vec::new();
    let n = s.unicode_len();
    let mut i: usize = 0;
    while i < n
        invariant
            n == s@.len(),
            i <= n,
            out@ == s@.take(i as int),
        decreases n - i,
    {
        out.push(s.get_char(i));
        i = i + 1;
        proof {
            assert(out@ =~= s@.take(i as int));
        }
    }
    proof {
        assert(s@.take(n as int) =~= s@);
    }
    out
}

/// The string made of the characters given.
pub fn string_of(chars: &Vec<char>) -> (r: String)
    ensures
        r@ == chars@,
{
    let mut out = String::new();
    let mut i: usize = 0;
    while i < chars.len()
        invariant
            i <= chars@.len(),
            out@ == chars@.take(i as int),
        decreases chars@.len() - i,
    {
        out.push(chars[i]);
        i = i + 1;
        proof {
            assert(out@ =~= chars@.take(i as int));
        }
    }
    proof {
        assert(chars@.take(chars@.len() as int) =~= chars@);
    }
    out
}

/// Appends the characters of `tail` to `list`.
pub fn extend(list: &mut Vec<char>, tail: &Vec<char>)
    ensures
        final(list)@ == old(list)@ + tail@,
{
    let mut i: usize = 0;
    while i < tail.len()
        invariant
            i <= tail@.len(),
            list@ == old(list)@ + tail@.take(i as int),
        decreases tail@.len() - i,
    {
        list.push(tail[i]);
        i = i + 1;
        proof {
            assert(list@ =~= old(list)@ + tail@.take(i as int));
        }
    }
    proof {
        assert(tail@.take(tail@.len() as int) =~= tail@);
    }
}

/// Appends the characters of a string to `list`.
pub fn push_str(list: &mut Vec<char>, tail: &str)
    ensures
        final(list)@ == old(list)@ + tail@,
{
    let chars = chars_of(tail);
    extend(list, &chars);
}

/// Appends `count` spaces to `list`.
pub fn push_spaces(list: &mut Vec<char>, count: usize)
    ensures
        final(list)@ == old(list)@ + Seq::new(count as nat, |i: int| ' '),
{
    let mut i: usize = 0;
    while i < count
        invariant
            i <= count,
            list@ == old(list)@ + Seq::new(i as nat, |k: int| ' '),
        decreases count - i,
    {
        list.push(' ');
        i = i + 1;
        proof {
            assert(list@ =~= old(list)@ + Seq::new(i as nat, |k: int| ' '));
        }
    }
}

/// The decimal digit of a number below ten.
pub open spec fn digit_char(d: int) -> char {
    if d == 0 {
        '0'
    } else if d == 1 {
        '1'
    } else if d == 2 {
        '2'
    } else if d == 3 {
        '3'
    } else if d == 4 {
        '4'
    } else if d == 5 {
        '5'
    } else if d == 6 {
        '6'
    } else if d == 7 {
        '7'
    } else if d == 8 {
        '8'
    } else {
        '9'
    }
}

/// The number a decimal digit stands for; -1 for any other character.
pub open spec fn digit_value(c: char) -> int {
    if c == '0' {
        0
    } else if c == '1' {
        1
    } else if c == '2' {
        2
    } else if c == '3' {
        3
    } else if c == '4' {
        4
    } else if c == '5' {
        5
    } else if c == '6' {
        6
    } else if c == '7' {
        7
    } else if c == '8' {
        8
    } else if c == '9' {
        9
    } else {
        -1
    }
}

/// The decimal digit of a number below ten.
pub fn digit_to_char(d: u8) -> (r: char)
    requires
        d < 10,
    ensures
        r == digit_char(d as int),
        digit_value(r) == d,
{
    if d == 0 {
        '0'
    } else if d == 1 {
        '1'
    } else if d == 2 {
        '2'
    } else if d == 3 {
        '3'
    } else if d == 4 {
        '4'
    } else if d == 5 {
        '5'
    } else if d == 6 {
        '6'
    } else if d == 7 {
        '7'
    } else if d == 8 {
        '8'
    } else {
        '9'
    }
}

/// The number a decimal digit stands for.
pub fn char_to_digit(c: char) -> (r: Option<u8>)
    ensures
        match r {
            Some(d) => d < 10 && digit_value(c) == d,
            None => digit_value(c) == -1,
        },
{
    if c == '0' {
        Some(0)
    } else if c == '1' {
        Some(1)
    } else if c == '2' {
        Some(2)
    } else if c == '3' {
        Some(3)
    } else if c == '4' {
        Some(4)
    } else if c == '5' {
        Some(5)
    } else if c == '6' {
        Some(6)
    } else if c == '7' {
        Some(7)
    } else if c == '8' {
        Some(8)
    } else if c == '9' {
        Some(9)
    } else {
        None
    }
}

/// The decimal digits of a number, without leading zeros.
pub open spec fn decimal(n: nat) -> Seq<char>
    decreases n,
{
    if n < 10 {
        seq![digit_char(n as int)]
    } else {
        decimal(n / 10).push(digit_char((n % 10) as int))
    }
}

/// The number that decimal digits stand for; `None` where there is no digit,
/// or a character that is no digit.
pub open spec fn number(digits: Seq<char>) -> Option<nat>
    decreases digits.len(),
{
    if digits.len() == 0 {
        None
    } else if digit_value(digits.last()) < 0 {
        None
    } else if digits.len() == 1 {
        Some(digit_value(digits.last()) as nat)
    } else {
        match number(digits.drop_last()) {
            Some(high) => Some((10 * high + digit_value(digits.last())) as nat),
            None => None,
        }
    }
}

/// Reading the digits of a number gives the number.
pub proof fn lemma_number_of_decimal(n: nat)
    ensures
        number(decimal(n)) == Some(n),
        decimal(n).len() >= 1,
    decreases n,
{
    if n < 10 {
    } else {
        lemma_number_of_decimal(n / 10);
        let d = decimal(n);
        assert(d.drop_last() =~= decimal(n / 10));
        assert(d.last() == digit_char((n % 10) as int));
    }
}

/// The decimal digits of `n`.
pub fn to_decimal(n: usize) -> (r: Vec<char>)
    ensures
        r@ == decimal(n as nat),
{
    let mut reversed: Vec<char> = Vec::new();
    let mut rest: usize = n;
    // The digits come out lowest first.
    while rest >= 10
        invariant
            decimal(n as nat) == decimal(rest as nat) + reversed@.reverse(),
        decreases rest,
    {
        let digit = digit_to_char((rest % 10) as u8);
        proof {
            let low = seq![digit];
            assert(decimal(rest as nat) == decimal((rest / 10) as nat).push(digit));
            assert(reversed@.push(digit).reverse() =~= low + reversed@.reverse());
            assert(decimal((rest / 10) as nat).push(digit) + reversed@.reverse() =~= decimal(
                (rest / 10) as nat,
            ) + (low + reversed@.reverse()));
        }
        reversed.push(digit);
        rest = rest / 10;
    }
    let mut out: Vec<char> = Vec::new();
    out.push(digit_to_char(rest as u8));
    let mut i: usize = reversed.len();
    while i > 0
        invariant
            i <= reversed@.len(),
            out@ == decimal(rest as nat) + reversed@.reverse().take(reversed@.len() - i),
        decreases i,
    {
        i = i - 1;
        out.push(reversed[i]);
        proof {
            let r = reversed@.reverse();
            let k = reversed@.len() - i;
            assert(r.take(k) =~= r.take(k - 1).push(r[k - 1]));
            assert(out@ =~= decimal(rest as nat) + r.take(k));
        }
    }
    proof {
        let r = reversed@.reverse();
        assert(r.take(reversed@.len() as int) =~= r);
    }
    out
}

/// The number that the digits stand for, where they stand for one that a
/// `usize` holds.
pub fn parse_number(digits: &Vec<char>) -> (r: Option<usize>)
    ensures
        match r {
            Some(n) => number(digits@) == Some(n as nat),
            None => match number(digits@) {
                Some(n) => n > usize::MAX,
                None => true,
            },
        },
{
    if digits.len() == 0 {
        return None;
    }
    let mut value: usize = 0;
    let mut i: usize = 0;
    while i < digits.len()
        invariant
            i <= digits@.len(),
            digits@.len() > 0,
            i > 0 ==> number(digits@.take(i as int)) == Some(value as nat),
            i == 0 ==> value == 0,
        decreases digits@.len() - i,
    {
        let ghost prefix = digits@.take(i + 1);
        proof {
            assert(prefix.drop_last() =~= digits@.take(i as int));
            assert(prefix.last() == digits@[i as int]);
            lemma_number_prefix(digits@, i + 1);
        }
        match char_to_digit(digits[i]) {
            None => {
                return None;
            },
            Some(d) => {
                if value > (usize::MAX - d as usize) / 10 {
                    proof {
                        assert(digits@.take(digits@.len() as int) =~= digits@);
                        lemma_number_grows(digits@, i + 1);
                    }
                    return None;
                }
                value = value * 10 + d as usize;
            },
        }
        i = i + 1;
    }
    proof {
        assert(digits@.take(digits@.len() as int) =~= digits@);
    }
    Some(value)
}

/// Where the digits stand for a number, so does each of their prefixes.
pub proof fn lemma_number_prefix(digits: Seq<char>, k: int)
    requires
        1 <= k <= digits.len(),
    ensures
        number(digits.take(k)) is None ==> number(digits) is None,
    decreases digits.len(),
{
    if k < digits.len() {
        assert(digits.drop_last().take(k) =~= digits.take(k));
        lemma_number_prefix(digits.drop_last(), k);
    } else {
        assert(digits.take(k) =~= digits);
    }
}

/// The number that the digits stand for is no less than that of each of
/// their prefixes.
pub proof fn lemma_number_grows(digits: Seq<char>, k: int)
    requires
        1 <= k <= digits.len(),
    ensures
        match (number(digits.take(k)), number(digits)) {
            (Some(low), Some(all)) => low <= all,
            _ => true,
        },
    decreases digits.len(),
{
    if k < digits.len() {
        assert(digits.drop_last().take(k) =~= digits.take(k));
        lemma_number_grows(digits.drop_last(), k);
    } else {
        assert(digits.take(k) =~= digits);
    }
}

} // verus!
