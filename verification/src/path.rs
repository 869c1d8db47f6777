//! Paths that name an interrupt line: a line's index, in decimal ASCII digits.

use vstd::prelude::*;

verus! {

/// Whether `byte` is one of the ASCII digits `0` to `9`.
pub open spec fn is_digit(byte: u8) -> bool {
    0x30 <= byte <= 0x39
}

/// The number that a digit stands for; zero for any other byte.
pub open spec fn digit_value(byte: u8) -> nat {
    if is_digit(byte) {
        (byte - 0x30) as nat
    } else {
        0
    }
}

/// Whether `text` is a decimal numeral: at least one byte, and digits only.
pub open spec fn is_decimal(text: Seq<u8>) -> bool {
    text.len() > 0 && forall|i: int| 0 <= i < text.len() ==> is_digit(#[trigger] text[i])
}

/// The number that the numeral `text` denotes.
pub open spec fn decimal_value(text: Seq<u8>) -> nat
    decreases text.len(),
{
    if text.len() == 0 {
        0
    } else {
        10 * decimal_value(text.drop_last()) + digit_value(text.last())
    }
}

/// The shortest decimal numeral for `number`.
pub open spec fn decimal_digits(number: nat) -> Seq<u8>
    decreases number,
{
    if number < 10 {
        seq![(0x30 + number) as u8]
    } else {
        decimal_digits(number / 10).push((0x30 + number % 10) as u8)
    }
}

/// What a path names: the number it denotes, if it is a numeral that fits a
/// machine word.
pub open spec fn parsed(text: Seq<u8>) -> Option<usize> {
    if is_decimal(text) && decimal_value(text) <= usize::MAX {
        Some(decimal_value(text) as usize)
    } else {
        None
    }
}

/// A numeral denotes at least as much as any of its prefixes.
pub proof fn lemma_decimal_value_prefix(text: Seq<u8>, k: int)
    requires
        0 <= k <= text.len(),
    ensures
        decimal_value(text.take(k)) <= decimal_value(text),
    decreases text.len(),
{
    if k == text.len() {
        assert(text.take(k) =~= text);
    } else {
        assert(text.drop_last().take(k) =~= text.take(k));
        lemma_decimal_value_prefix(text.drop_last(), k);
    }
}

/// The numeral written for a number is a numeral, and denotes that number.
pub proof fn lemma_decimal_digits_value(number: nat)
    ensures
        is_decimal(decimal_digits(number)),
        decimal_value(decimal_digits(number)) == number,
    decreases number,
{
    let text = decimal_digits(number);
    if number < 10 {
        assert(text.drop_last() =~= Seq::<u8>::empty());
        assert(decimal_value(text.drop_last()) == 0);
    } else {
        lemma_decimal_digits_value(number / 10);
        assert(text.drop_last() =~= decimal_digits(number / 10));
    }
}

/// Reads `path` as a decimal numeral.
///
/// Returns the number when every byte is a digit, there is at least one, and
/// the number fits a machine word; `None` otherwise.
pub fn parse_decimal(path: &[u8]) -> (number: Option<usize>)
    ensures
        number == parsed(path@),
{
    if path.len() == 0 {
        return None;
    }
    let mut value: usize = 0;
    let mut i: usize = 0;
    while i < path.len()
        invariant
            i <= path.len(),
            value == decimal_value(path@.take(i as int)),
            forall|j: int| 0 <= j < i ==> is_digit(#[trigger] path@[j]),
        decreases path.len() - i,
    {
        let byte = path[i];
        if byte < 0x30 || byte > 0x39 {
            return None;
        }
        let unit = (byte - 0x30) as usize;
        proof {
            assert(path@.take(i + 1).drop_last() =~= path@.take(i as int));
            lemma_decimal_value_prefix(path@, i + 1);
        }
        if value > (usize::MAX - unit) / 10 {
            return None;
        }
        value = value * 10 + unit;
        i += 1;
    }
    assert(path@.take(i as int) =~= path@);
    Some(value)
}

/// Writes `number` as its shortest decimal numeral.
pub fn format_decimal(number: usize) -> (text: Vec<u8>)
    ensures
        text@ == decimal_digits(number as nat),
    decreases number,
{
    if number < 10 {
        let mut text = Vec::new();
        text.push(0x30 + number as u8);
        assert(text@ =~= decimal_digits(number as nat));
        text
    } else {
        let mut text = format_decimal(number / 10);
        text.push(0x30 + (number % 10) as u8);
        text
    }
}

} // verus!
