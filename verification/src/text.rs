//! Text helpers shared by the stages of the toolchain.

use vstd::prelude::*;
use vstd::std_specs::iter::IteratorSpec;

verus! {

/// Taken on trust of the standard library: `String::push` appends the character to the end
/// of the string and leaves the characters before it as they were.
pub assume_specification[ String::push ](s: &mut String, ch: char)
    ensures
        final(s)@ == old(s)@.push(ch),
;

/// The views of the elements of a sequence, in order.
pub open spec fn views<T: View>(s: Seq<T>) -> Seq<T::V> {
    Seq::new(s.len(), |i: int| s[i]@)
}

/// Appending an element appends its view.
pub proof fn lemma_views_push<T: View>(s: Seq<T>, x: T)
    ensures
        views(s.push(x)) == views(s).push(x@),
{
    assert(views(s.push(x)) =~= views(s).push(x@));
}

/// Joining two sequences joins their views.
pub proof fn lemma_views_add<T: View>(s: Seq<T>, t: Seq<T>)
    ensures
        views(s + t) == views(s) + views(t),
{
    assert(views(s + t) =~= views(s) + views(t));
}

/// The texts joined into one, with `separator` between each two of them.
pub open spec fn joined(parts: Seq<Seq<char>>, separator: Seq<char>) -> Seq<char>
    decreases parts.len(),
{
    if parts.len() == 0 {
        seq![]
    } else if parts.len() == 1 {
        parts[0]
    } else {
        joined(parts.drop_last(), separator) + separator + parts.last()
    }
}

/// The character that writes a decimal digit.
pub open spec fn digit_char(digit: nat) -> char {
    if digit == 0 {
        '0'
    } else if digit == 1 {
        '1'
    } else if digit == 2 {
        '2'
    } else if digit == 3 {
        '3'
    } else if digit == 4 {
        '4'
    } else if digit == 5 {
        '5'
    } else if digit == 6 {
        '6'
    } else if digit == 7 {
        '7'
    } else if digit == 8 {
        '8'
    } else {
        '9'
    }
}

/// The digit that a character writes, if it is one of `0` to `9`.
pub open spec fn digit_value(c: char) -> Option<nat> {
    if c == '0' {
        Some(0)
    } else if c == '1' {
        Some(1)
    } else if c == '2' {
        Some(2)
    } else if c == '3' {
        Some(3)
    } else if c == '4' {
        Some(4)
    } else if c == '5' {
        Some(5)
    } else if c == '6' {
        Some(6)
    } else if c == '7' {
        Some(7)
    } else if c == '8' {
        Some(8)
    } else if c == '9' {
        Some(9)
    } else {
        None
    }
}

/// A number written in decimal, without sign or leading zeros.
pub open spec fn decimal(n: nat) -> Seq<char>
    decreases n,
{
    if n < 10 {
        seq![digit_char(n)]
    } else {
        decimal(n / 10).push(digit_char(n % 10))
    }
}

/// Whether every character is a decimal digit.
pub open spec fn all_digits(s: Seq<char>) -> bool {
    forall|i: int| 0 <= i < s.len() ==> (#[trigger] digit_value(s[i])) is Some
}

/// The number that a run of decimal digits writes.
pub open spec fn digits_value(s: Seq<char>) -> nat
    decreases s.len(),
{
    if s.len() == 0 {
        0
    } else {
        match digit_value(s.last()) {
            Some(digit) => 10 * digits_value(s.drop_last()) + digit,
            None => 10 * digits_value(s.drop_last()),
        }
    }
}

/// The word without its sign: a leading `+` is dropped.
pub open spec fn unsigned_part(word: Seq<char>) -> Seq<char> {
    if word.len() > 0 && word[0] == '+' {
        word.drop_first()
    } else {
        word
    }
}

/// The value of a word read as an unsigned 32-bit literal: an optional `+`, then one or more
/// decimal digits whose value fits in 32 bits. Any other word is no literal.
pub open spec fn number_of(word: Seq<char>) -> Option<u32> {
    let digits = unsigned_part(word);
    if digits.len() > 0 && all_digits(digits) && digits_value(digits) <= u32::MAX {
        Some(digits_value(digits) as u32)
    } else {
        None
    }
}

/// The value of a run of digits is at least the value of each of its prefixes.
pub proof fn lemma_digits_value_grows(s: Seq<char>, n: int)
    requires
        0 <= n <= s.len(),
    ensures
        digits_value(s.take(n)) <= digits_value(s),
    decreases s.len() - n,
{
    if n == s.len() {
        assert(s.take(n) =~= s);
    } else {
        lemma_digits_value_grows(s.drop_last(), n);
        assert(s.drop_last().take(n) =~= s.take(n));
    }
}

/// A number written in decimal is a run of digits that writes the number.
pub proof fn lemma_decimal_is_digits(n: nat)
    ensures
        decimal(n).len() > 0,
        all_digits(decimal(n)),
        digits_value(decimal(n)) == n,
    decreases n,
{
    let text = decimal(n);
    if n < 10 {
        assert(text.drop_last() =~= Seq::<char>::empty());
        assert(digits_value(text.drop_last()) == 0);
    } else {
        lemma_decimal_is_digits(n / 10);
        assert(text.drop_last() =~= decimal(n / 10));
        assert(text.last() == digit_char(n % 10));
        assert forall|i: int| 0 <= i < text.len() implies (#[trigger] digit_value(text[i]))
            is Some by {
            if i < text.len() - 1 {
                assert(text[i] == decimal(n / 10)[i]);
            }
        }
    }
}

/// A number of 32 bits written in decimal reads back as that number.
pub proof fn lemma_decimal_reads_back(n: u32)
    ensures
        number_of(decimal(n as nat)) == Some(n),
{
    lemma_decimal_is_digits(n as nat);
    let text = decimal(n as nat);
    assert(digit_value(text[0]) is Some);
}

/// The character that writes a decimal digit.
fn digit_to_char(digit: u64) -> (c: char)
    requires
        digit < 10,
    ensures
        c == digit_char(digit as nat),
{
    if digit == 0 {
        '0'
    } else if digit == 1 {
        '1'
    } else if digit == 2 {
        '2'
    } else if digit == 3 {
        '3'
    } else if digit == 4 {
        '4'
    } else if digit == 5 {
        '5'
    } else if digit == 6 {
        '6'
    } else if digit == 7 {
        '7'
    } else if digit == 8 {
        '8'
    } else {
        '9'
    }
}

/// The digit that a character writes, if it is one of `0` to `9`.
fn char_to_digit(c: char) -> (digit: Option<u64>)
    ensures
        match digit {
            Some(d) => digit_value(c) == Some(d as nat) && d < 10,
            None => digit_value(c) is None,
        },
{
    if c == '0' {
        Some(0)
    } else if c == '1' {
        Some(1)
    } else if c == '2' {
        Some(2)
    } else if c == '3' {
        Some(3)
    } else if c == '4' {
        Some(4)
    } else if c == '5' {
        Some(5)
    } else if c == '6' {
        Some(6)
    } else if c == '7' {
        Some(7)
    } else if c == '8' {
        Some(8)
    } else if c == '9' {
        Some(9)
    } else {
        None
    }
}

/// Appends `n`, written in decimal, to `text`.
pub fn push_decimal(text: &mut String, n: u64)
    ensures
        final(text)@ == old(text)@ + decimal(n as nat),
    decreases n,
{
    if n >= 10 {
        push_decimal(text, n / 10);
    }
    text.push(digit_to_char(n % 10));
    assert(text@ =~= old(text)@ + decimal(n as nat));
}

/// Appends `piece` to `text`.
pub fn push_text(text: &mut String, piece: &str)
    ensures
        final(text)@ == old(text)@ + piece@,
{
    text.append(piece);
}

/// A text between two others.
pub fn surround(before: &str, text: &str, after: &str) -> (whole: String)
    ensures
        whole@ == before@ + text@ + after@,
{
    let mut whole = before.to_owned();
    push_text(&mut whole, text);
    push_text(&mut whole, after);
    whole
}

/// Reads a word as an unsigned 32-bit literal.
pub fn parse_number(word: &str) -> (number: Option<u32>)
    ensures
        number == number_of(word@),
{
    broadcast use vstd::string::group_string_axioms;

    let mut chars = word.chars();
    let ghost mut done: Seq<char> = Seq::empty();
    let ghost mut signed = false;
    let mut first = true;
    let mut any = false;
    let mut value: u64 = 0;
    loop
        invariant
            word@ == done + chars.remaining(),
            chars.obeys_prophetic_iter_laws(),
            chars.decrease() is Some,
            first <==> done.len() == 0,
            signed <==> done.len() > 0 && done[0] == '+',
            any <==> unsigned_part(done).len() > 0,
            all_digits(unsigned_part(done)),
            value == digits_value(unsigned_part(done)),
            value <= u32::MAX,
        decreases chars.decrease()->0,
    {
        match chars.next() {
            None => {
                assert(word@ =~= done);
                if any {
                    return Some(value as u32);
                } else {
                    return None;
                }
            },
            Some(c) => {
                let ghost seen = done;
                proof {
                    assert(word@ =~= done.push(c) + chars.remaining());
                    done = done.push(c);
                    assert(done.drop_last() =~= seen);
                    assert(word@.take(done.len() as int) =~= done);
                }
                if first && c == '+' {
                    first = false;
                    proof {
                        signed = true;
                        assert(unsigned_part(done) =~= Seq::<char>::empty());
                    }
                } else {
                    first = false;
                    let ghost digits = unsigned_part(done);
                    proof {
                        assert(digits =~= unsigned_part(seen).push(c));
                        assert(digits.drop_last() =~= unsigned_part(seen));
                        assert(unsigned_part(word@).take(digits.len() as int) =~= digits);
                    }
                    match char_to_digit(c) {
                        None => {
                            proof {
                                let k = digits.len() - 1;
                                assert(unsigned_part(word@)[k] == c);
                                assert(digit_value(unsigned_part(word@)[k]) is None);
                            }
                            return None;
                        },
                        Some(digit) => {
                            value = value * 10 + digit;
                            any = true;
                            if value > 0xffff_ffff {
                                proof {
                                    lemma_digits_value_grows(
                                        unsigned_part(word@),
                                        digits.len() as int,
                                    );
                                }
                                return None;
                            }
                        },
                    }
                }
            },
        }
    }
}

/// Whether two texts hold the same characters.
pub fn same_text(a: &str, b: &str) -> (same: bool)
    ensures
        same == (a@ == b@),
{
    broadcast use vstd::string::group_string_axioms;

    let mut left = a.chars();
    let mut right = b.chars();
    let ghost mut done: Seq<char> = Seq::empty();
    loop
        invariant
            a@ == done + left.remaining(),
            b@ == done + right.remaining(),
            left.obeys_prophetic_iter_laws(),
            left.decrease() is Some,
            right.obeys_prophetic_iter_laws(),
            right.decrease() is Some,
        decreases left.decrease()->0,
    {
        let ghost left_before = left.remaining();
        let ghost right_before = right.remaining();
        let x = left.next();
        let y = right.next();
        match (x, y) {
            (None, None) => {
                assert(a@ =~= done);
                assert(b@ =~= done);
                return true;
            },
            (Some(c), Some(d)) => {
                proof {
                    assert(a@[done.len() as int] == left_before[0]);
                    assert(b@[done.len() as int] == right_before[0]);
                }
                if c != d {
                    return false;
                }
                proof {
                    assert(a@ =~= done.push(c) + left.remaining());
                    assert(b@ =~= done.push(c) + right.remaining());
                    done = done.push(c);
                }
            },
            (Some(c), None) => {
                assert(b@ =~= done);
                assert(a@.len() > b@.len());
                return false;
            },
            (None, Some(d)) => {
                assert(a@ =~= done);
                assert(b@.len() > a@.len());
                return false;
            },
        }
    }
}

} // verus!
