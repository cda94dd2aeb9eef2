//! Text for the VGA console: hexadecimal rendering of values.
//! Writing the characters into the VGA buffer is the caller's part.

use vstd::prelude::*;

verus! {

/// The characters `0123456789ABCDEF`.
pub open spec fn hex_alphabet() -> Seq<u8> {
    seq![48u8, 49, 50, 51, 52, 53, 54, 55, 56, 57, 65, 66, 67, 68, 69, 70]
}

fn hex_chars() -> (chars: Vec<u8>)
    ensures
        chars@ == hex_alphabet(),
{
    let chars = vec![48u8, 49, 50, 51, 52, 53, 54, 55, 56, 57, 65, 66, 67, 68, 69, 70];
    assert(chars@ =~= hex_alphabet());
    chars
}

/// The `i`-th hexadecimal digit of `val`, most significant first.
pub open spec fn nibble(val: u64, i: int) -> u64 {
    (val >> ((60 - 4 * i) as u64)) & 0xF
}

/// The value of a character of `hex_alphabet()`.
pub open spec fn hex_value(c: u8) -> int {
    if c <= 57 {
        c - 48
    } else {
        c - 55
    }
}

/// The character of hexadecimal digit `n`.
pub fn hex_digit(n: u64) -> (c: u8)
    requires
        n < 16,
    ensures
        c == hex_alphabet()[n as int],
        hex_value(c) == n,
{
    let chars = hex_chars();
    chars[n as usize]
}

/// The sixteen hexadecimal digits of `val`, most significant first.
pub fn hex_digits_64(val: u64) -> (digits: Vec<u8>)
    ensures
        digits@.len() == 16,
        forall|i: int| 0 <= i < 16 ==> #[trigger] digits@[i] == hex_alphabet()[nibble(val, i) as int],
{
    let chars = hex_chars();
    let mut digits: Vec<u8> = Vec::new();
    let mut i: u64 = 0;
    while i < 16
        invariant
            0 <= i <= 16,
            chars@ == hex_alphabet(),
            digits@.len() == i,
            forall|j: int| 0 <= j < i ==> #[trigger] digits@[j] == hex_alphabet()[nibble(val, j) as int],
        decreases 16 - i,
    {
        let shift: u64 = 60 - i * 4;
        let n = (val >> shift) & 0x0F;
        assert(n < 16) by (bit_vector)
            requires
                n == (val >> shift) & 0x0F,
        ;
        assert(n == nibble(val, i as int));
        digits.push(chars[n as usize]);
        i = i + 1;
    }
    digits
}

/// The two hexadecimal digits of the low byte of `val`, high digit first.
pub fn hex_byte_digits(val: u64) -> (d: (u8, u8))
    ensures
        d.0 == hex_alphabet()[((val >> 4u64) & 0xF) as int],
        d.1 == hex_alphabet()[(val & 0xF) as int],
{
    let high = (val >> 4u64) & 0x0F;
    let low = val & 0x0F;
    assert(high < 16 && low < 16) by (bit_vector)
        requires
            high == (val >> 4u64) & 0x0F,
            low == val & 0x0F,
    ;
    (hex_digit(high), hex_digit(low))
}

/// The sixteen digits that `hex_digits_64` renders spell out the value:
/// each is the character of one nibble, and the nibbles, most significant
/// first, reassemble `val`.
pub proof fn law_hex_digits_spell_value(val: u64)
    ensures
        forall|i: int| 0 <= i < 16 ==> #[trigger] hex_value(hex_alphabet()[nibble(val, i) as int]) == nibble(val, i),
        val == (nibble(val, 0) << 60u64) | (nibble(val, 1) << 56u64) | (nibble(val, 2) << 52u64)
            | (nibble(val, 3) << 48u64) | (nibble(val, 4) << 44u64) | (nibble(val, 5) << 40u64)
            | (nibble(val, 6) << 36u64) | (nibble(val, 7) << 32u64) | (nibble(val, 8) << 28u64)
            | (nibble(val, 9) << 24u64) | (nibble(val, 10) << 20u64) | (nibble(val, 11) << 16u64)
            | (nibble(val, 12) << 12u64) | (nibble(val, 13) << 8u64) | (nibble(val, 14) << 4u64)
            | nibble(val, 15),
{
    assert forall|i: int| 0 <= i < 16 implies #[trigger] hex_value(hex_alphabet()[nibble(val, i) as int]) == nibble(val, i) by {
        let n = nibble(val, i);
        let shift = (60 - 4 * i) as u64;
        assert(n < 16) by (bit_vector)
            requires
                n == (val >> shift) & 0xF,
        ;
    }
    assert(val == ((val >> 60u64) & 0xF) << 60u64 | ((val >> 56u64) & 0xF) << 56u64 | ((val >> 52u64) & 0xF) << 52u64
        | ((val >> 48u64) & 0xF) << 48u64 | ((val >> 44u64) & 0xF) << 44u64 | ((val >> 40u64) & 0xF) << 40u64
        | ((val >> 36u64) & 0xF) << 36u64 | ((val >> 32u64) & 0xF) << 32u64 | ((val >> 28u64) & 0xF) << 28u64
        | ((val >> 24u64) & 0xF) << 24u64 | ((val >> 20u64) & 0xF) << 20u64 | ((val >> 16u64) & 0xF) << 16u64
        | ((val >> 12u64) & 0xF) << 12u64 | ((val >> 8u64) & 0xF) << 8u64 | ((val >> 4u64) & 0xF) << 4u64
        | ((val >> 0u64) & 0xF)) by (bit_vector);
}

} // verus!
