//! Conversions between bytes, bits and choices used around the transfer.

use vstd::prelude::*;

verus! {

/// Each bit as `0` or `1`.
pub fn bools_to_u16(bits: Vec<bool>) -> (r: Vec<u16>)
    ensures
        r@.len() == bits@.len(),
        forall|i: int| 0 <= i < bits@.len() ==> #[trigger] r@[i] == (if bits@[i] { 1u16 } else { 0u16 }),
{
    let mut out: Vec<u16> = Vec::new();
    let mut i: usize = 0;
    while i < bits.len()
        invariant
            i <= bits@.len(),
            out@.len() == i,
            forall|j: int| 0 <= j < i ==> #[trigger] out@[j] == (if bits@[j] { 1u16 } else { 0u16 }),
        decreases bits@.len() - i,
    {
        out.push(if bits[i] { 1u16 } else { 0u16 });
        i = i + 1;
    }
    out
}

/// The sixteen bits of the integer one, least significant first.
pub fn one() -> (r: Vec<bool>)
    ensures
        r@.len() == 16,
        r@[0],
        forall|i: int| 1 <= i < 16 ==> !#[trigger] r@[i],
{
    let mut bits: Vec<bool> = Vec::new();
    let mut i: usize = 0;
    while i < 16
        invariant
            i <= 16,
            bits@.len() == i,
            forall|j: int| 0 <= j < i ==> #[trigger] bits@[j] == (j == 0),
        decreases 16 - i,
    {
        bits.push(i == 0);
        i = i + 1;
    }
    bits
}

/// The bits of each byte, least significant first.
pub fn u8_vec_to_vec_bool(input: Vec<u8>) -> (r: Vec<bool>)
    requires
        input@.len() * 8 <= usize::MAX,
    ensures
        r@.len() == 8 * input@.len(),
        forall|i: int, j: int|
            0 <= i < input@.len() && 0 <= j < 8 ==> #[trigger] r@[8 * i + j] == ((input@[i] >> (j as u8))
                & 1u8 == 1u8),
{
    let mut result: Vec<bool> = Vec::new();
    let mut b: usize = 0;
    while b < input.len()
        invariant
            b <= input@.len(),
            input@.len() * 8 <= usize::MAX,
            result@.len() == 8 * b,
            forall|i: int, j: int|
                0 <= i < b && 0 <= j < 8 ==> #[trigger] result@[8 * i + j] == ((input@[i] >> (j as u8))
                    & 1u8 == 1u8),
        decreases input@.len() - b,
    {
        let byte = input[b];
        let mut j: u8 = 0;
        while j < 8
            invariant
                j <= 8,
                b < input@.len(),
                byte == input@[b as int],
                result@.len() == 8 * b + j,
                forall|i: int, jj: int|
                    0 <= i < b && 0 <= jj < 8 ==> #[trigger] result@[8 * i + jj] == ((input@[i] >> (
                    jj as u8)) & 1u8 == 1u8),
                forall|jj: int|
                    0 <= jj < j ==> #[trigger] result@[8 * b + jj] == ((byte >> (jj as u8)) & 1u8 == 1u8),
            decreases 8 - j,
        {
            result.push((byte >> j) & 1u8 == 1u8);
            j = j + 1;
        }
        assert forall|i: int, jj: int|
            0 <= i < b + 1 && 0 <= jj < 8 implies #[trigger] result@[8 * i + jj] == ((input@[i] >> (
            jj as u8)) & 1u8 == 1u8) by {
            if i == b {
                assert(result@[8 * b + jj] == ((byte >> (jj as u8)) & 1u8 == 1u8));
            }
        }
        b = b + 1;
    }
    result
}

} // verus!
