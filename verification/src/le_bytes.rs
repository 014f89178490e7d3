//! Little-endian encoding of 128-bit words.
use vstd::prelude::*;

verus! {

/// The number whose base-256 digits, lowest first, are `digits`.
pub open spec fn le_value(digits: Seq<u8>) -> nat
    decreases digits.len(),
{
    if digits.len() == 0 {
        0
    } else {
        digits[0] as nat + 256 * le_value(digits.drop_first())
    }
}

/// The lowest `n` base-256 digits of `value`, lowest first.
pub open spec fn le_digits(value: nat, n: nat) -> Seq<u8>
    decreases n,
{
    if n == 0 {
        Seq::empty()
    } else {
        seq![(value % 256) as u8] + le_digits(value / 256, (n - 1) as nat)
    }
}

/// `256^n`.
pub open spec fn byte_power(n: nat) -> nat
    decreases n,
{
    if n == 0 {
        1
    } else {
        256 * byte_power((n - 1) as nat)
    }
}

/// The 16 bytes of a word, lowest first.
pub open spec fn word_bytes(word: u128) -> Seq<u8> {
    le_digits(word as nat, 16)
}

/// A number of `n` digits is recovered from its digits.
pub proof fn lemma_value_of_digits(value: nat, n: nat)
    requires
        value < byte_power(n),
    ensures
        le_digits(value, n).len() == n,
        le_value(le_digits(value, n)) == value,
    decreases n,
{
    if n > 0 {
        lemma_value_of_digits(value / 256, (n - 1) as nat);
        let tail = le_digits(value / 256, (n - 1) as nat);
        assert(le_digits(value, n).drop_first() =~= tail);
    }
}

/// Digits are recovered from the number they denote.
pub proof fn lemma_digits_of_value(digits: Seq<u8>)
    ensures
        le_value(digits) < byte_power(digits.len()),
        le_digits(le_value(digits), digits.len()) == digits,
    decreases digits.len(),
{
    if digits.len() == 0 {
        assert(le_digits(0, 0) =~= digits);
    } else {
        let tail = digits.drop_first();
        lemma_digits_of_value(tail);
        let v = le_value(digits);
        assert(v % 256 == digits[0] as nat && v / 256 == le_value(tail));
        assert(le_digits(v, digits.len()) =~= digits);
    }
}

/// Sixteen digits denote a 128-bit word.
pub proof fn lemma_word_range()
    ensures
        byte_power(16) == 0x1_0000_0000_0000_0000_0000_0000_0000_0000,
{
    assert(byte_power(4) == 0x1_0000_0000) by {
        reveal_with_fuel(byte_power, 5);
    }
    assert(byte_power(8) == 0x1_0000_0000_0000_0000) by {
        reveal_with_fuel(byte_power, 5);
    }
    assert(byte_power(12) == 0x1_0000_0000_0000_0000_0000_0000) by {
        reveal_with_fuel(byte_power, 5);
    }
    assert(byte_power(16) == 0x1_0000_0000_0000_0000_0000_0000_0000_0000) by {
        reveal_with_fuel(byte_power, 5);
    }
}

/// A word is recovered from its bytes, and sixteen bytes from the word they denote.
pub proof fn lemma_word_round_trip(word: u128, bytes: Seq<u8>)
    ensures
        word_bytes(word).len() == 16,
        le_value(word_bytes(word)) == word as nat,
        bytes.len() == 16 ==> le_value(bytes) <= u128::MAX && word_bytes(le_value(bytes) as u128)
            == bytes,
{
    lemma_word_range();
    lemma_value_of_digits(word as nat, 16);
    lemma_digits_of_value(bytes);
}

/// The bytes of a word, lowest first.
pub fn word_to_bytes(word: u128) -> (bytes: [u8; 16])
    ensures
        bytes@ == word_bytes(word),
{
    let mut bytes = [0u8; 16];
    let mut rest: u128 = word;
    let mut i: usize = 0;
    while i < 16
        invariant
            i <= 16,
            word_bytes(word) == bytes@.take(i as int) + le_digits(rest as nat, (16 - i) as nat),
        decreases 16 - i,
    {
        let ghost before = bytes@;
        let digit: u8 = (rest % 256) as u8;
        bytes[i] = digit;
        proof {
            assert(bytes@.take(i + 1) =~= before.take(i as int).push(digit));
            assert(le_digits(rest as nat, (16 - i) as nat) == seq![digit] + le_digits(
                (rest / 256) as nat,
                (16 - i - 1) as nat,
            ));
            assert(word_bytes(word) =~= bytes@.take(i + 1) + le_digits(
                (rest / 256) as nat,
                (16 - i - 1) as nat,
            ));
        }
        rest = rest / 256;
        i = i + 1;
    }
    proof {
        assert(bytes@.take(16) + le_digits(rest as nat, 0) =~= bytes@);
    }
    bytes
}

proof fn lemma_value_suffix(digits: Seq<u8>, i: int)
    requires
        0 < i <= digits.len(),
    ensures
        le_value(digits.skip(i - 1)) == digits[i - 1] as nat + 256 * le_value(digits.skip(i)),
        le_value(digits.skip(i - 1)) < byte_power((digits.len() - i + 1) as nat),
{
    assert(digits.skip(i - 1).drop_first() =~= digits.skip(i));
    lemma_digits_of_value(digits.skip(i - 1));
}

/// The word whose bytes, lowest first, are `bytes[start..start + 16]`.
pub fn word_from_bytes(bytes: &[u8], start: usize) -> (word: u128)
    requires
        start + 16 <= bytes.len(),
    ensures
        word as nat == le_value(bytes@.subrange(start as int, start + 16)),
{
    let ghost digits = bytes@.subrange(start as int, start + 16);
    let mut word: u128 = 0;
    let mut i: usize = 16;
    while i > 0
        invariant
            i <= 16,
            start + 16 <= bytes.len(),
            digits == bytes@.subrange(start as int, start + 16),
            word as nat == le_value(digits.skip(i as int)),
        decreases i,
    {
        proof {
            lemma_value_suffix(digits, i as int);
            lemma_word_range();
            lemma_byte_power_monotone((16 - i + 1) as nat, 16);
        }
        i = i - 1;
        word = word * 256 + bytes[start + i] as u128;
    }
    proof {
        assert(digits.skip(0) =~= digits);
    }
    word
}

proof fn lemma_byte_power_monotone(m: nat, n: nat)
    requires
        m <= n,
    ensures
        byte_power(m) <= byte_power(n),
    decreases n,
{
    if m < n {
        lemma_byte_power_monotone(m, (n - 1) as nat);
    }
}

/// Byte `i` of a word is its digit of weight `256^i`.
pub proof fn bytes_are_digits(word: u128, i: nat)
    requires
        i < 16,
    ensures
        word_bytes(word)[i as int] == (word as nat / byte_power(i)) % 256,
        byte_power(0) == 1,
        byte_power(i + 1) == 256 * byte_power(i),
{
    lemma_digit(word as nat, 16, i);
}

proof fn lemma_digit(value: nat, n: nat, i: nat)
    requires
        i < n,
    ensures
        le_digits(value, n).len() == n,
        le_digits(value, n)[i as int] == (value / byte_power(i)) % 256,
    decreases n,
{
    let tail = le_digits(value / 256, (n - 1) as nat);
    lemma_digits_len(value / 256, (n - 1) as nat);
    if i > 0 {
        lemma_digit(value / 256, (n - 1) as nat, (i - 1) as nat);
        lemma_power_positive((i - 1) as nat);
        vstd::arithmetic::div_mod::lemma_div_denominator(
            value as int,
            256,
            byte_power((i - 1) as nat) as int,
        );
        assert(le_digits(value, n)[i as int] == tail[i - 1]);
    } else {
        assert(byte_power(0) == 1 && value / 1 == value);
    }
}

proof fn lemma_digits_len(value: nat, n: nat)
    ensures
        le_digits(value, n).len() == n,
    decreases n,
{
    if n > 0 {
        lemma_digits_len(value / 256, (n - 1) as nat);
    }
}

proof fn lemma_power_positive(n: nat)
    ensures
        byte_power(n) > 0,
    decreases n,
{
    if n > 0 {
        lemma_power_positive((n - 1) as nat);
    }
}

} // verus!
