//! Hexadecimal text as it appears in a Thread dataset.

use vstd::prelude::*;

verus! {

/// The value of one hexadecimal digit: `0` to `9`, `a` to `f` or `A` to `F`.
pub open spec fn nibble_of(b: u8) -> Option<u8> {
    if 0x30 <= b <= 0x39 {
        Some((b - 0x30) as u8)
    } else if 0x61 <= b <= 0x66 {
        Some((b - 0x61 + 10) as u8)
    } else if 0x41 <= b <= 0x46 {
        Some((b - 0x41 + 10) as u8)
    } else {
        None
    }
}

/// The byte written by the two digits at `offset`, if both are there and both
/// are digits.
pub open spec fn byte_at(hex: Seq<u8>, offset: int) -> Option<u8> {
    if offset < 0 || offset + 2 > hex.len() {
        None
    } else {
        match (nibble_of(hex[offset]), nibble_of(hex[offset + 1])) {
            (Some(hi), Some(lo)) => Some((16 * hi + lo) as u8),
            _ => None,
        }
    }
}

/// The `n` bytes written from `start` on, each of them present or not.
pub open spec fn bytes_at(hex: Seq<u8>, start: int, n: nat) -> Seq<Option<u8>> {
    Seq::new(n, |k: int| byte_at(hex, start + 2 * k))
}

/// The first `n` bytes of a value are all present.
pub open spec fn present_up_to(value: Seq<Option<u8>>, n: int) -> bool {
    forall|k: int| 0 <= k < n ==> (#[trigger] value[k]) is Some
}

/// A value of which every byte is present.
pub open spec fn all_present(value: Seq<Option<u8>>) -> bool {
    present_up_to(value, value.len() as int)
}

/// The bytes of a value that is all present.
pub open spec fn unwrapped(value: Seq<Option<u8>>) -> Seq<u8> {
    Seq::new(value.len(), |k: int| value[k].unwrap())
}

/// The number that two bytes write, the high one first.
pub open spec fn be_u16(hi: u8, lo: u8) -> u16 {
    (256 * hi + lo) as u16
}

/// The digits are `0` to `9` for zero to nine, and `a` to `f` and `A` to `F` for
/// ten to fifteen. Nothing else is a digit.
pub proof fn law_digits_have_their_values(b: u8, n: u8)
    ensures
        nibble_of(b) == Some(n) <==> (n <= 9 && b == 0x30 + n || 10 <= n <= 15 && (b == 0x61 + (n
            - 10) || b == 0x41 + (n - 10))),
{
}

/// A byte is written by the digits of its upper and its lower half, in this
/// order and next to each other, and by nothing else.
pub proof fn law_byte_is_two_digits(hex: Seq<u8>, offset: int, byte: u8)
    ensures
        byte_at(hex, offset) == Some(byte) <==> (0 <= offset && offset + 2 <= hex.len()
            && nibble_of(hex[offset]) == Some((byte / 16) as u8) && nibble_of(hex[offset + 1])
            == Some((byte % 16) as u8)),
{
    if 0 <= offset && offset + 2 <= hex.len() {
        match (nibble_of(hex[offset]), nibble_of(hex[offset + 1])) {
            (Some(hi), Some(lo)) => {
                assert(hi < 16 && lo < 16);
            },
            _ => {},
        }
    }
}

/// The bytes of a value stand one behind the other, two digits each.
pub proof fn law_value_is_read_in_place(hex: Seq<u8>, start: int, n: nat, k: int)
    requires
        0 <= k < n,
    ensures
        bytes_at(hex, start, n).len() == n,
        bytes_at(hex, start, n)[k] == byte_at(hex, start + 2 * k),
{
}

/// The value of the hexadecimal digit `b`, or `None` for any other character.
pub fn hex_nibble(b: u8) -> (nibble: Option<u8>)
    ensures
        nibble == nibble_of(b),
{
    match b {
        0x30..=0x39 => Some(b - 0x30),
        0x61..=0x66 => Some(b - 0x61 + 10),
        0x41..=0x46 => Some(b - 0x41 + 10),
        _ => None,
    }
}

/// The byte written by the two digits at `offset`.
pub fn parse_hex_u8(hex: &[u8], offset: usize) -> (byte: Option<u8>)
    ensures
        byte == byte_at(hex@, offset as int),
{
    if hex.len() < 2 || offset > hex.len() - 2 {
        return None;
    }
    let hi = hex_nibble(hex[offset])?;
    let lo = hex_nibble(hex[offset + 1])?;
    assert(hi < 16 && lo < 16 ==> (hi << 4) | lo == 16 * hi + lo) by (bit_vector);
    Some((hi << 4) | lo)
}

/// The big-endian number written by the four digits at `offset`.
pub fn parse_hex_u16_be(hex: &[u8], offset: usize) -> (value: Option<u16>)
    ensures
        value == (match (byte_at(hex@, offset as int), byte_at(hex@, offset + 2)) {
            (Some(hi), Some(lo)) => Some(be_u16(hi, lo)),
            _ => None,
        }),
        value is Some <==> byte_at(hex@, offset as int) is Some && byte_at(hex@, offset + 2) is Some,
        value matches Some(v) ==> byte_at(hex@, offset as int) == Some((v / 256) as u8) && byte_at(
            hex@,
            offset + 2,
        ) == Some((v % 256) as u8),
{
    let hi = parse_hex_u8(hex, offset)?;
    assert(offset + 2 <= hex.len());
    let lo = parse_hex_u8(hex, offset + 2)?;
    Some(hi as u16 * 256 + lo as u16)
}

/// The first bytes of a value are present exactly if they are written.
proof fn lemma_present(hex: Seq<u8>, start: int, n: nat, k: int)
    requires
        0 <= k < n,
    ensures
        present_up_to(bytes_at(hex, start, n), k + 1) <==> forall|o: int|
            start <= o <= start + 2 * k && (o - start) % 2 == 0 ==> (#[trigger] byte_at(hex, o)) is Some,
{
    let value = bytes_at(hex, start, n);
    if present_up_to(value, k + 1) {
        assert forall|o: int| start <= o <= start + 2 * k && (o - start) % 2 == 0 implies (
        #[trigger] byte_at(hex, o)) is Some by {
            let j = (o - start) / 2;
            assert(o == start + 2 * j);
            assert(value[j] is Some);
        }
    }
    if forall|o: int|
        start <= o <= start + 2 * k && (o - start) % 2 == 0 ==> (#[trigger] byte_at(hex, o)) is Some {
        assert forall|j: int| 0 <= j < k + 1 implies (#[trigger] value[j]) is Some by {
            assert(value[j] == byte_at(hex, start + 2 * j));
        }
    }
}

/// What filling with the bytes of a value means, byte by byte.
proof fn lemma_filled(hex: Seq<u8>, start: int, before: Seq<u8>, after: Seq<u8>)
    requires
        after.len() == before.len(),
        forall|k: int|
            0 <= k < before.len() ==> #[trigger] after[k] == (if present_up_to(
                bytes_at(hex, start, before.len()),
                k + 1,
            ) {
                byte_at(hex, start + 2 * k).unwrap()
            } else {
                before[k]
            }),
    ensures
        all_present(bytes_at(hex, start, before.len())) <==> forall|k: int|
            0 <= k < before.len() ==> byte_at(hex, start + 2 * k) == Some(#[trigger] after[k]),
        forall|k: int|
            0 <= k < before.len() ==> if (forall|o: int|
                start <= o <= start + 2 * k && (o - start) % 2 == 0 ==> (#[trigger] byte_at(
                    hex,
                    o,
                )) is Some) {
                byte_at(hex, start + 2 * k) == Some(#[trigger] after[k])
            } else {
                after[k] == before[k]
            },
{
    let value = bytes_at(hex, start, before.len());
    assert forall|k: int| 0 <= k < before.len() implies if (forall|o: int|
        start <= o <= start + 2 * k && (o - start) % 2 == 0 ==> (#[trigger] byte_at(
            hex,
            o,
        )) is Some) {
        byte_at(hex, start + 2 * k) == Some(#[trigger] after[k])
    } else {
        after[k] == before[k]
    } by {
        lemma_present(hex, start, before.len(), k);
        assert(value[k] == byte_at(hex, start + 2 * k));
    }
    if all_present(value) {
        assert forall|k: int| 0 <= k < before.len() implies byte_at(hex, start + 2 * k) == Some(
            #[trigger] after[k],
        ) by {
            assert(value[k] is Some);
            assert(present_up_to(value, k + 1));
        }
    } else {
        let k = choose|k: int| 0 <= k < value.len() && !((#[trigger] value[k]) is Some);
        assert(byte_at(hex, start + 2 * k) != Some(after[k]));
    }
}

/// Fills `out` with the bytes written from `value_start` on.
///
/// Stops at the first byte that is not written there and reports `false`; the
/// bytes before it have then been stored, those behind it are untouched.
pub fn parse_hex_array(hex: &[u8], value_start: usize, out: &mut [u8]) -> (complete: bool)
    ensures
        final(out)@.len() == old(out)@.len(),
        complete == all_present(bytes_at(hex@, value_start as int, old(out)@.len())),
        forall|k: int|
            0 <= k < old(out)@.len() ==> #[trigger] final(out)@[k] == (if present_up_to(
                bytes_at(hex@, value_start as int, old(out)@.len()),
                k + 1,
            ) {
                byte_at(hex@, value_start + 2 * k).unwrap()
            } else {
                old(out)@[k]
            }),
        complete <==> forall|k: int|
            0 <= k < old(out)@.len() ==> byte_at(hex@, value_start + 2 * k) == Some(
                #[trigger] final(out)@[k],
            ),
        forall|k: int|
            0 <= k < old(out)@.len() ==> if (forall|o: int|
                value_start <= o <= value_start + 2 * k && (o - value_start) % 2 == 0 ==> (
                #[trigger] byte_at(hex@, o)) is Some) {
                byte_at(hex@, value_start + 2 * k) == Some(#[trigger] final(out)@[k])
            } else {
                final(out)@[k] == old(out)@[k]
            },
{
    let ghost value = bytes_at(hex@, value_start as int, old(out)@.len());
    let mut i: usize = 0;
    let mut offset: usize = value_start;
    while i < out.len()
        invariant
            out@.len() == old(out)@.len(),
            value == bytes_at(hex@, value_start as int, old(out)@.len()),
            i <= out@.len(),
            offset == value_start + 2 * i,
            present_up_to(value, i as int),
            forall|k: int| 0 <= k < i ==> #[trigger] out@[k] == value[k].unwrap(),
            forall|k: int| i <= k < out@.len() ==> #[trigger] out@[k] == old(out)@[k],
        decreases out.len() - i,
    {
        let byte = match parse_hex_u8(hex, offset) {
            Some(byte) => byte,
            None => {
                assert(value[i as int] is None);
                proof {
                    lemma_filled(hex@, value_start as int, old(out)@, out@);
                }
                return false;
            },
        };
        assert(value[i as int] == Some(byte));
        assert(offset + 2 <= hex.len());
        out[i] = byte;
        i = i + 1;
        offset = offset + 2;
    }
    proof {
        lemma_filled(hex@, value_start as int, old(out)@, out@);
    }
    true
}

} // verus!
