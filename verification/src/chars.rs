//! Characters and strings: the few operations of the standard library that
//! the rest of the crate builds on.

use vstd::prelude::*;

verus! {

/// Whether `char::is_whitespace` holds of `c`.
pub uninterp spec fn char_is_whitespace(c: char) -> bool;

/// Whether `c` is a control character: one of the code points of the
/// Unicode general category Cc, which are U+0000 to U+001F and U+007F to
/// U+009F and will never be others.
pub open spec fn char_is_control(c: char) -> bool {
    c as u32 <= 0x1f || 0x7f <= c as u32 <= 0x9f
}

/// `char::is_whitespace`: the Unicode property White_Space, which the table
/// of the standard library decides. The result is named, not spelled out.
#[verifier::external_body]
pub(crate) fn is_whitespace(c: char) -> (b: bool)
    ensures
        b == char_is_whitespace(c),
{
    c.is_whitespace()
}

/// Decides whether `c` is a control character.
pub fn is_control(c: char) -> (b: bool)
    ensures
        b == char_is_control(c),
{
    let code = c as u32;
    code <= 0x1f || (0x7f <= code && code <= 0x9f)
}

/// `String::push`: appends one character to the end of the string.
#[verifier::external_body]
pub(crate) fn push_char(text: &mut String, c: char)
    ensures
        final(text)@ == old(text)@.push(c),
{
    text.push(c);
}

/// The characters of the string, in order.
pub fn chars_of(text: &str) -> (chars: Vec<char>)
    ensures
        chars@ == text@,
{
    let mut chars: Vec<char> = Vec::new();
    for c in it: text.chars()
        invariant
            it.seq() == text@,
            chars@ == it.seq().take(it.index()),
    {
        proof {
            assert(it.seq().take(it.index() + 1) == it.seq().take(it.index()).push(c));
        }
        chars.push(c);
    }
    proof {
        assert(text@.take(text@.len() as int) == text@);
    }
    chars
}

/// Builds the string of the characters `chars[from..to]`.
pub(crate) fn string_of(chars: &Vec<char>, from: usize, to: usize) -> (text: String)
    requires
        from <= to <= chars.len(),
    ensures
        text@ == chars@.subrange(from as int, to as int),
{
    let mut text = String::new();
    let mut i: usize = from;
    while i < to
        invariant
            from <= i <= to <= chars.len(),
            text@ == chars@.subrange(from as int, i as int),
        decreases to - i,
    {
        push_char(&mut text, chars[i]);
        proof {
            assert(chars@.subrange(from as int, i as int + 1) == chars@.subrange(
                from as int,
                i as int,
            ).push(chars@[i as int]));
        }
        i = i + 1;
    }
    text
}

/// The parts with one space between each two.
pub open spec fn join_spaced(parts: Seq<Seq<char>>) -> Seq<char>
    decreases parts.len(),
{
    if parts.len() == 0 {
        Seq::empty()
    } else if parts.len() == 1 {
        parts[0]
    } else {
        join_spaced(parts.drop_last()) + seq![' '] + parts.last()
    }
}

/// The character of a decimal digit.
pub open spec fn digit_char(d: int) -> char {
    if d == 0 {
        '0'
    } else if d == 1 {
        '1'
    } else if d == 2 {
        '2'
    } else if d == 3 {
        '3'
    } else if d == 4 {
        '4'
    } else if d == 5 {
        '5'
    } else if d == 6 {
        '6'
    } else if d == 7 {
        '7'
    } else if d == 8 {
        '8'
    } else {
        '9'
    }
}

/// The decimal digits of a number, without leading zeros.
pub open spec fn decimal_digits(n: nat) -> Seq<char>
    decreases n,
{
    if n < 10 {
        seq![digit_char(n as int)]
    } else {
        decimal_digits(n / 10).push(digit_char((n % 10) as int))
    }
}

/// The character of the decimal digit `d`.
fn digit(d: u64) -> (c: char)
    requires
        d < 10,
    ensures
        c == digit_char(d as int),
{
    if d == 0 {
        '0'
    } else if d == 1 {
        '1'
    } else if d == 2 {
        '2'
    } else if d == 3 {
        '3'
    } else if d == 4 {
        '4'
    } else if d == 5 {
        '5'
    } else if d == 6 {
        '6'
    } else if d == 7 {
        '7'
    } else if d == 8 {
        '8'
    } else {
        '9'
    }
}

/// Writes a number in decimal.
pub fn decimal_string(n: u64) -> (text: String)
    ensures
        text@ == decimal_digits(n as nat),
{
    // The digits from the last to the first.
    let mut reversed: Vec<char> = Vec::new();
    let mut rest: u64 = n;
    while rest >= 10
        invariant
            decimal_digits(n as nat) == decimal_digits(rest as nat) + reversed@.reverse(),
        decreases rest,
    {
        let c = digit(rest % 10);
        proof {
            let tail = reversed@.reverse();
            assert(reversed@.push(c).reverse() == seq![c] + tail);
            assert(decimal_digits(rest as nat) == decimal_digits((rest / 10) as nat).push(c));
            assert(decimal_digits((rest / 10) as nat).push(c) + tail == decimal_digits(
                (rest / 10) as nat,
            ) + (seq![c] + tail));
        }
        reversed.push(c);
        rest = rest / 10;
    }
    let mut text = String::new();
    push_char(&mut text, digit(rest));
    let mut i: usize = reversed.len();
    while i > 0
        invariant
            i <= reversed.len(),
            text@ == decimal_digits(rest as nat) + reversed@.reverse().take(reversed.len() - i),
        decreases i,
    {
        i = i - 1;
        proof {
            let tail = reversed@.reverse();
            let k = reversed.len() - i - 1;
            assert(tail[k] == reversed@[i as int]);
            assert(tail.take(k + 1) == tail.take(k).push(tail[k]));
            assert((decimal_digits(rest as nat) + tail.take(k)).push(tail[k]) == decimal_digits(
                rest as nat,
            ) + tail.take(k).push(tail[k]));
        }
        push_char(&mut text, reversed[i]);
    }
    proof {
        let tail = reversed@.reverse();
        assert(tail.take(reversed.len() as int) == tail);
    }
    text
}

} // verus!
