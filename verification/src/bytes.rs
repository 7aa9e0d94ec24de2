//! Numbers as bytes.

use vstd::prelude::*;

verus! {

/// The bytes of `x`, the highest one first.
pub open spec fn be_bytes(x: u32) -> Seq<u8> {
    seq![
        (x / 0x100_0000) as u8,
        (x / 0x1_0000 % 0x100) as u8,
        (x / 0x100 % 0x100) as u8,
        (x % 0x100) as u8,
    ]
}

/// The bytes of `x`, the lowest one first.
pub open spec fn le_bytes(x: u32) -> Seq<u8> {
    seq![
        (x % 0x100) as u8,
        (x / 0x100 % 0x100) as u8,
        (x / 0x1_0000 % 0x100) as u8,
        (x / 0x100_0000) as u8,
    ]
}

/// The bytes of `x`, the highest one first.
pub fn u32_be_bytes(x: u32) -> (bytes: [u8; 4])
    ensures
        bytes@ == be_bytes(x),
{
    let bytes = [
        (x / 0x100_0000) as u8,
        (x / 0x1_0000 % 0x100) as u8,
        (x / 0x100 % 0x100) as u8,
        (x % 0x100) as u8,
    ];
    assert(bytes@ =~= be_bytes(x));
    bytes
}

/// The bytes of `x`, the lowest one first.
pub fn u32_le_bytes(x: u32) -> (bytes: [u8; 4])
    ensures
        bytes@ == le_bytes(x),
{
    let bytes = [
        (x % 0x100) as u8,
        (x / 0x100 % 0x100) as u8,
        (x / 0x1_0000 % 0x100) as u8,
        (x / 0x100_0000) as u8,
    ];
    assert(bytes@ =~= le_bytes(x));
    bytes
}

/// Four bytes that write the same number are the same.
pub proof fn lemma_same_number(
    a3: u8,
    a2: u8,
    a1: u8,
    a0: u8,
    b3: u8,
    b2: u8,
    b1: u8,
    b0: u8,
)
    requires
        a3 * 0x100_0000 + a2 * 0x1_0000 + a1 * 0x100 + a0 == b3 * 0x100_0000 + b2 * 0x1_0000 + b1
            * 0x100 + b0,
    ensures
        a3 == b3 && a2 == b2 && a1 == b1 && a0 == b0,
{
}

/// A number is its bytes, in either order.
pub proof fn lemma_bytes_determine(x: u32)
    ensures
        be_bytes(x).len() == 4,
        le_bytes(x).len() == 4,
        be_bytes(x)[0] * 0x100_0000 + be_bytes(x)[1] * 0x1_0000 + be_bytes(x)[2] * 0x100 + be_bytes(
            x,
        )[3] == x,
        le_bytes(x)[3] * 0x100_0000 + le_bytes(x)[2] * 0x1_0000 + le_bytes(x)[1] * 0x100 + le_bytes(
            x,
        )[0] == x,
{
}

} // verus!
