//! Operands: eight bytes, most significant first.

use vstd::prelude::*;

verus! {

/// The unsigned number that eight bytes spell, most significant byte first.
pub open spec fn be_u64(bytes: Seq<u8>) -> int
    recommends
        bytes.len() == 8,
{
    bytes[0] * 0x0100_0000_0000_0000 + bytes[1] * 0x0001_0000_0000_0000 + bytes[2]
        * 0x0000_0100_0000_0000 + bytes[3] * 0x0000_0001_0000_0000 + bytes[4] * 0x0000_0000_0100_0000
        + bytes[5] * 0x0000_0000_0001_0000 + bytes[6] * 0x0000_0000_0000_0100 + bytes[7]
}

/// The signed number that eight bytes spell in two's complement, most
/// significant byte first.
pub open spec fn be_i64(bytes: Seq<u8>) -> int
    recommends
        bytes.len() == 8,
{
    if be_u64(bytes) >= 0x8000_0000_0000_0000 {
        be_u64(bytes) - 0x1_0000_0000_0000_0000
    } else {
        be_u64(bytes)
    }
}

/// Eight bytes spell a number that fits in 64 bits.
pub proof fn lemma_be_bounds(bytes: Seq<u8>)
    ensures
        0 <= be_u64(bytes) <= u64::MAX,
        i64::MIN <= be_i64(bytes) <= i64::MAX,
{
}

/// Reads the unsigned operand that starts at `at`; `None` if fewer than
/// eight bytes are left from there.
pub fn read_u64_be(bytes: &[u8], at: usize) -> (operand: Option<u64>)
    ensures
        at + 8 <= bytes@.len() ==> operand == Some(be_u64(bytes@.subrange(at as int, at + 8)) as u64),
        at + 8 > bytes@.len() ==> operand is None,
{
    if bytes.len() < 8 || at > bytes.len() - 8 {
        return None;
    }
    let b0: u64 = bytes[at] as u64;
    let b1: u64 = bytes[at + 1] as u64;
    let b2: u64 = bytes[at + 2] as u64;
    let b3: u64 = bytes[at + 3] as u64;
    let b4: u64 = bytes[at + 4] as u64;
    let b5: u64 = bytes[at + 5] as u64;
    let b6: u64 = bytes[at + 6] as u64;
    let b7: u64 = bytes[at + 7] as u64;
    Some(
        b0 * 0x0100_0000_0000_0000 + b1 * 0x0001_0000_0000_0000 + b2 * 0x0000_0100_0000_0000 + b3
            * 0x0000_0001_0000_0000 + b4 * 0x0000_0000_0100_0000 + b5 * 0x0000_0000_0001_0000 + b6
            * 0x0000_0000_0000_0100 + b7,
    )
}

/// Reads the signed operand that starts at `at`; `None` if fewer than eight
/// bytes are left from there.
pub fn read_i64_be(bytes: &[u8], at: usize) -> (operand: Option<i64>)
    ensures
        at + 8 <= bytes@.len() ==> operand == Some(be_i64(bytes@.subrange(at as int, at + 8)) as i64),
        at + 8 > bytes@.len() ==> operand is None,
{
    match read_u64_be(bytes, at) {
        None => None,
        Some(unsigned) => {
            if unsigned >= 0x8000_0000_0000_0000 {
                let low: i64 = (unsigned - 0x8000_0000_0000_0000) as i64;
                Some(low + i64::MIN)
            } else {
                Some(unsigned as i64)
            }
        },
    }
}

} // verus!
