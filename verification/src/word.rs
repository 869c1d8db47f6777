//! Fixed-width encoding of a machine word in a byte buffer.
//!
//! A counter value travels through a buffer as exactly `word_len()` bytes. The
//! byte at position `i` carries one base-256 digit of the value; which digit
//! is decided by the [`ByteOrder`].

use vstd::prelude::*;
use vstd::arithmetic::div_mod::lemma_div_denominator;
use vstd::arithmetic::div_mod::lemma_mod_breakdown;
use vstd::arithmetic::div_mod::lemma_small_mod;

verus! {

/// The order in which the digits of a word are laid out in memory.
#[derive(Clone, Copy, Debug, PartialEq, Eq, Structural)]
pub enum ByteOrder {
    /// Least significant digit first.
    LittleEndian,
    /// Most significant digit first.
    BigEndian,
}

/// Number of bytes in a machine word.
pub open spec fn word_len() -> nat {
    (usize::BITS / 8) as nat
}

/// `256` raised to the power `n`.
pub open spec fn radix_pow(n: nat) -> nat
    decreases n,
{
    if n == 0 {
        1
    } else {
        256 * radix_pow((n - 1) as nat)
    }
}

/// The base-256 digit of `value` with weight `256^place`.
pub open spec fn digit(value: nat, place: nat) -> u8 {
    ((value / radix_pow(place)) % 256) as u8
}

/// The weight exponent of the digit stored at `index` in a field of `n` bytes.
pub open spec fn place_of(order: ByteOrder, index: int, n: nat) -> nat {
    match order {
        ByteOrder::LittleEndian => index as nat,
        ByteOrder::BigEndian => (n - 1 - index) as nat,
    }
}

/// The `n` low digits of `value`, laid out in `order`.
pub open spec fn encode(order: ByteOrder, value: nat, n: nat) -> Seq<u8> {
    Seq::new(n, |i: int| digit(value, place_of(order, i, n)))
}

/// The number whose digits, least significant first, are `bytes`.
pub open spec fn le_value(bytes: Seq<u8>) -> nat
    decreases bytes.len(),
{
    if bytes.len() == 0 {
        0
    } else {
        bytes[0] as nat + 256 * le_value(bytes.drop_first())
    }
}

/// The number whose digits, most significant first, are `bytes`.
pub open spec fn be_value(bytes: Seq<u8>) -> nat
    decreases bytes.len(),
{
    if bytes.len() == 0 {
        0
    } else {
        256 * be_value(bytes.drop_last()) + bytes.last() as nat
    }
}

/// The number that `bytes` spell in `order`.
pub open spec fn decode(order: ByteOrder, bytes: Seq<u8>) -> nat {
    match order {
        ByteOrder::LittleEndian => le_value(bytes),
        ByteOrder::BigEndian => be_value(bytes),
    }
}

/// The bytes that carry the word `value`.
pub open spec fn word_bytes(order: ByteOrder, value: usize) -> Seq<u8> {
    encode(order, value as nat, word_len())
}

/// The word that the first `word_len()` bytes of `buffer` carry.
pub open spec fn word_value(order: ByteOrder, buffer: Seq<u8>) -> nat {
    decode(order, buffer.take(word_len() as int))
}

/// Powers of 256 are positive.
pub proof fn lemma_radix_pow_positive(n: nat)
    ensures
        radix_pow(n) > 0,
    decreases n,
{
    if n > 0 {
        lemma_radix_pow_positive((n - 1) as nat);
    }
}

/// Powers of 256 grow with the exponent.
pub proof fn lemma_radix_pow_monotonic(a: nat, b: nat)
    requires
        a <= b,
    ensures
        radix_pow(a) <= radix_pow(b),
    decreases b,
{
    if a < b {
        lemma_radix_pow_monotonic(a, (b - 1) as nat);
        lemma_radix_pow_positive((b - 1) as nat);
    }
}

/// A machine word has exactly `word_len()` base-256 digits.
pub proof fn lemma_word_range()
    ensures
        word_len() == 4 || word_len() == 8,
        radix_pow(word_len()) == usize::MAX + 1,
{
    reveal_with_fuel(radix_pow, 9);
    assert(radix_pow(4) == 0x1_0000_0000);
    assert(radix_pow(8) == 0x1_0000_0000_0000_0000);
}

/// Dropping the lowest digit of a number shifts every other digit down by one
/// place.
pub proof fn lemma_digit_shift(value: nat, place: nat)
    ensures
        digit(value, place + 1) == digit(value / 256, place),
{
    lemma_radix_pow_positive(place);
    lemma_div_denominator(value as int, 256, radix_pow(place) as int);
    assert(radix_pow(place + 1) == 256 * radix_pow(place));
}

/// Decoding what was encoded in `n` bytes gives the value back, reduced to
/// `n` digits.
pub proof fn lemma_decode_encode(order: ByteOrder, value: nat, n: nat)
    ensures
        decode(order, encode(order, value, n)) == value % radix_pow(n),
    decreases n,
{
    let bytes = encode(order, value, n);
    if n == 0 {
        assert(value % 1 == 0);
    } else {
        let m = (n - 1) as nat;
        let rest = match order {
            ByteOrder::LittleEndian => bytes.drop_first(),
            ByteOrder::BigEndian => bytes.drop_last(),
        };
        assert(rest =~= encode(order, value / 256, m)) by {
            assert forall|i: int| 0 <= i < m implies rest[i] == encode(order, value / 256, m)[i] by {
                lemma_digit_shift(value, place_of(order, i, m));
            }
        }
        lemma_decode_encode(order, value / 256, m);
        lemma_radix_pow_positive(m);
        lemma_mod_breakdown(value as int, 256, radix_pow(m) as int);
        assert(digit(value, 0) == (value % 256) as u8) by {
            assert(radix_pow(0) == 1);
            assert(value / 1 == value);
        }
    }
}

/// A word survives the trip through a buffer.
pub proof fn lemma_word_round_trip(order: ByteOrder, value: usize, tail: Seq<u8>)
    ensures
        word_bytes(order, value).len() == word_len(),
        word_value(order, word_bytes(order, value) + tail) == value,
{
    let bytes = word_bytes(order, value);
    assert((bytes + tail).take(word_len() as int) =~= bytes);
    lemma_decode_encode(order, value as nat, word_len());
    lemma_word_range();
    lemma_small_mod(value as nat, radix_pow(word_len()));
}

/// Number of bytes in a machine word.
pub fn word_size() -> (n: usize)
    ensures
        n == word_len(),
{
    core::mem::size_of::<usize>()
}

/// Writes `value` into the first `word_len()` bytes of `buffer`, in `order`,
/// and leaves the bytes behind them as they were.
pub fn store_word(order: ByteOrder, value: usize, buffer: &mut [u8])
    requires
        old(buffer).len() >= word_len(),
    ensures
        final(buffer)@ == word_bytes(order, value) + old(buffer)@.skip(word_len() as int),
{
    let n = word_size();
    let ghost before = buffer@;
    let mut rest = value;
    let mut i: usize = 0;
    assert(value as nat / radix_pow(0) == value) by {
        assert(radix_pow(0) == 1);
        assert(value as nat / 1 == value);
    }
    while i < n
        invariant
            n == word_len(),
            i <= n <= buffer.len(),
            buffer.len() == before.len(),
            rest == value as nat / radix_pow(i as nat),
            forall|j: int|
                0 <= j < n && place_of(order, j, n as nat) < i ==> buffer@[j] == digit(
                    value as nat,
                    place_of(order, j, n as nat),
                ),
            forall|j: int| n <= j < buffer.len() ==> buffer@[j] == before[j],
        decreases n - i,
    {
        let at = match order {
            ByteOrder::LittleEndian => i,
            ByteOrder::BigEndian => n - 1 - i,
        };
        proof {
            lemma_radix_pow_positive(i as nat);
            lemma_div_denominator(value as int, radix_pow(i as nat) as int, 256);
            assert(radix_pow((i + 1) as nat) == 256 * radix_pow(i as nat));
            assert(place_of(order, at as int, n as nat) == i);
        }
        buffer[at] = (rest % 256) as u8;
        rest = rest / 256;
        i += 1;
    }
    assert(buffer@ =~= word_bytes(order, value) + before.skip(word_len() as int));
}

/// Reads the word that the first `word_len()` bytes of `buffer` carry in
/// `order`.
pub fn load_word(order: ByteOrder, buffer: &[u8]) -> (value: usize)
    requires
        buffer.len() >= word_len(),
    ensures
        value == word_value(order, buffer@),
{
    let n = word_size();
    let ghost field = buffer@.take(n as int);
    let mut value: usize = 0;
    let mut i: usize = 0;
    proof {
        lemma_word_range();
    }
    while i < n
        invariant
            n == word_len(),
            i <= n <= buffer.len(),
            field == buffer@.take(n as int),
            radix_pow(n as nat) == usize::MAX + 1,
            value < radix_pow(i as nat),
            match order {
                ByteOrder::LittleEndian => value == le_value(field.skip(n - i)),
                ByteOrder::BigEndian => value == be_value(field.take(i as int)),
            },
        decreases n - i,
    {
        let at = match order {
            ByteOrder::LittleEndian => n - 1 - i,
            ByteOrder::BigEndian => i,
        };
        proof {
            lemma_radix_pow_monotonic((i + 1) as nat, n as nat);
            assert(radix_pow((i + 1) as nat) == 256 * radix_pow(i as nat));
            assert(field.skip(n - i - 1).drop_first() =~= field.skip(n - i));
            assert(field.take(i + 1).drop_last() =~= field.take(i as int));
        }
        value = value * 256 + buffer[at] as usize;
        i += 1;
    }
    assert(field.skip(0) =~= field);
    assert(field.take(n as int) =~= field);
    value
}

impl ByteOrder {
    /// The order that a two-byte probe reveals: the bytes of the number one,
    /// as the machine lays them out.
    pub fn of_probe(probe: [u8; 2]) -> (order: ByteOrder)
        ensures
            order == (if probe@[0] == 1u8 {
                ByteOrder::LittleEndian
            } else {
                ByteOrder::BigEndian
            }),
    {
        if probe[0] == 1 {
            ByteOrder::LittleEndian
        } else {
            ByteOrder::BigEndian
        }
    }

    /// The order in which this machine lays out its words.
    ///
    /// Which of the two orders comes back depends on the machine alone, so
    /// nothing is promised of it here; `of_probe` says how the order is told
    /// from the machine's layout of the number one.
    pub fn native() -> ByteOrder {
        ByteOrder::of_probe(native_probe())
    }
}

/// The number one as a 16-bit value in this machine's memory layout, from
/// `u16::to_ne_bytes`. Trusted: the result is the little-endian or the
/// big-endian layout of one; which of the two depends on the machine.
#[verifier::external_body]
fn native_probe() -> (probe: [u8; 2])
    ensures
        probe@ == seq![1u8, 0u8] || probe@ == seq![0u8, 1u8],
{
    1u16.to_ne_bytes()
}

} // verus!
