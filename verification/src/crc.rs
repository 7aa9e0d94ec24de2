//! The CRC-8 that protects every word an SHT41 sends.

use vstd::prelude::*;

verus! {

/// The generator polynomial `x^8 + x^5 + x^4 + 1`, without its leading term.
pub const CRC_POLYNOMIAL: u8 = 0x31;

/// The value that is added to the first eight bits of the message.
pub const CRC_INIT: u8 = 0xff;

/// Bit `k` of `byte`, counted from the most significant one.
pub open spec fn bit_of(byte: u8, k: int) -> bool {
    (byte >> ((7 - k) as u8)) & 1 == 1
}

/// The coefficients of a message, the highest power first.
pub open spec fn bits_of(data: Seq<u8>) -> Seq<bool> {
    Seq::new(8 * data.len(), |i: int| bit_of(data[i / 8], i % 8))
}

/// The remainder of `rem * x + bit` modulo the generator.
pub open spec fn shift_in(rem: u8, bit: bool) -> u8 {
    ((rem << 1) | (if bit { 1u8 } else { 0u8 })) ^ (if rem & 0x80 != 0 { CRC_POLYNOMIAL } else { 0 })
}

/// The remainder, modulo the generator, of the polynomial over GF(2) whose
/// coefficients are `bits`.
pub open spec fn poly_rem(bits: Seq<bool>) -> u8
    decreases bits.len(),
{
    if bits.len() == 0 {
        0
    } else {
        shift_in(poly_rem(bits.drop_last()), bits.last())
    }
}

/// A message with the initial value added to its first byte.
pub open spec fn preset(data: Seq<u8>) -> Seq<u8> {
    data.update(0, data[0] ^ CRC_INIT)
}

/// The CRC of `data`: the remainder of the preset message after eight zero
/// bits have been appended to it.
pub open spec fn crc8_of(data: Seq<u8>) -> u8 {
    poly_rem(bits_of(preset(data.push(0))))
}

/// The remainder after `n` further zero bits.
spec fn shift_zeros(rem: u8, n: nat) -> u8
    decreases n,
{
    if n == 0 {
        rem
    } else {
        shift_in(shift_zeros(rem, (n - 1) as nat), false)
    }
}

/// The remainder after eight further zero bits.
spec fn shift_byte(rem: u8) -> u8 {
    shift_in(
        shift_in(
            shift_in(
                shift_in(
                    shift_in(shift_in(shift_in(shift_in(rem, false), false), false), false),
                    false,
                ),
                false,
            ),
            false,
        ),
        false,
    )
}

/// The remainder after the eight bits of `byte`.
spec fn absorb(rem: u8, byte: u8) -> u8 {
    shift_in(
        shift_in(
            shift_in(
                shift_in(
                    shift_in(
                        shift_in(
                            shift_in(
                                shift_in(rem, (byte >> 7u8) & 1 == 1),
                                (byte >> 6u8) & 1 == 1,
                            ),
                            (byte >> 5u8) & 1 == 1,
                        ),
                        (byte >> 4u8) & 1 == 1,
                    ),
                    (byte >> 3u8) & 1 == 1,
                ),
                (byte >> 2u8) & 1 == 1,
            ),
            (byte >> 1u8) & 1 == 1,
        ),
        (byte >> 0u8) & 1 == 1,
    )
}

proof fn lemma_rem_push(bits: Seq<bool>, bit: bool)
    ensures
        poly_rem(bits.push(bit)) == shift_in(poly_rem(bits), bit),
{
    assert(bits.push(bit).drop_last() =~= bits);
}

proof fn lemma_rem_push_byte(data: Seq<u8>, byte: u8)
    ensures
        poly_rem(bits_of(data.push(byte))) == absorb(poly_rem(bits_of(data)), byte),
{
    let s0 = bits_of(data);
    let s1 = s0.push(bit_of(byte, 0));
    let s2 = s1.push(bit_of(byte, 1));
    let s3 = s2.push(bit_of(byte, 2));
    let s4 = s3.push(bit_of(byte, 3));
    let s5 = s4.push(bit_of(byte, 4));
    let s6 = s5.push(bit_of(byte, 5));
    let s7 = s6.push(bit_of(byte, 6));
    let s8 = s7.push(bit_of(byte, 7));
    assert(bits_of(data.push(byte)) =~= s8) by {
        assert forall|i: int| 0 <= i < s8.len() implies bits_of(data.push(byte))[i] == s8[i] by {
            if i < 8 * data.len() {
                assert(i / 8 < data.len());
            } else {
                assert(i / 8 == data.len());
                assert(i % 8 == i - 8 * data.len());
            }
        }
    }
    lemma_rem_push(s0, bit_of(byte, 0));
    lemma_rem_push(s1, bit_of(byte, 1));
    lemma_rem_push(s2, bit_of(byte, 2));
    lemma_rem_push(s3, bit_of(byte, 3));
    lemma_rem_push(s4, bit_of(byte, 4));
    lemma_rem_push(s5, bit_of(byte, 5));
    lemma_rem_push(s6, bit_of(byte, 6));
    lemma_rem_push(s7, bit_of(byte, 7));
}

proof fn lemma_absorb(rem: u8, byte: u8)
    ensures
        absorb(rem, byte) == shift_byte(rem) ^ byte,
{
    assert(absorb(rem, byte) == shift_byte(rem) ^ byte) by (bit_vector);
}

proof fn lemma_crc_empty()
    ensures
        crc8_of(Seq::empty()) == CRC_INIT,
{
    let none = Seq::<u8>::empty();
    assert(preset(none.push(0)) =~= none.push(0u8 ^ CRC_INIT));
    lemma_rem_push_byte(none, 0u8 ^ CRC_INIT);
    assert(bits_of(none) =~= Seq::<bool>::empty());
    lemma_absorb(0, 0u8 ^ CRC_INIT);
    assert(shift_byte(0) ^ (0u8 ^ CRC_INIT) == CRC_INIT) by (bit_vector);
}

/// The CRC of a message with one more byte.
proof fn lemma_crc_push(data: Seq<u8>, byte: u8)
    ensures
        crc8_of(data.push(byte)) == shift_byte(crc8_of(data) ^ byte),
{
    // Up to its last byte, the augmented message is the preset one.
    let body = preset(data.push(byte));
    assert(preset(data.push(byte).push(0)) =~= body.push(0));
    lemma_rem_push_byte(body, 0);
    lemma_absorb(poly_rem(bits_of(body)), 0);
    let rem = poly_rem(bits_of(body));
    assert(shift_byte(rem) ^ 0u8 == shift_byte(rem)) by (bit_vector);
    assert(rem == crc8_of(data) ^ byte) by {
        if data.len() == 0 {
            lemma_crc_empty();
            assert(data =~= Seq::empty());
            let none = Seq::<u8>::empty();
            assert(body =~= none.push(byte ^ CRC_INIT));
            lemma_rem_push_byte(none, byte ^ CRC_INIT);
            assert(bits_of(none) =~= Seq::<bool>::empty());
            lemma_absorb(0, byte ^ CRC_INIT);
            assert(shift_byte(0) ^ (byte ^ CRC_INIT) == CRC_INIT ^ byte) by (bit_vector);
        } else {
            let head = preset(data);
            let r = poly_rem(bits_of(head));
            assert(preset(data.push(0)) =~= head.push(0));
            assert(body =~= head.push(byte));
            lemma_rem_push_byte(head, 0);
            lemma_rem_push_byte(head, byte);
            lemma_absorb(r, 0);
            lemma_absorb(r, byte);
            assert(shift_byte(r) ^ byte == (shift_byte(r) ^ 0u8) ^ byte) by (bit_vector);
        }
    }
}

/// Computes the CRC of `data`.
pub fn crc8(data: &[u8]) -> (crc: u8)
    ensures
        crc == crc8_of(data@),
{
    let mut crc: u8 = CRC_INIT;
    let mut i: usize = 0;
    proof {
        lemma_crc_empty();
        assert(data@.take(0) =~= Seq::empty());
    }
    while i < data.len()
        invariant
            i <= data.len(),
            crc == crc8_of(data@.take(i as int)),
        decreases data.len() - i,
    {
        let ghost before = crc;
        crc = crc ^ data[i];
        let ghost start = crc;
        let mut k: usize = 0;
        while k < 8
            invariant
                k <= 8,
                crc == shift_zeros(start, k as nat),
            decreases 8 - k,
        {
            let ghost rem = crc;
            if crc & 0x80 != 0 {
                crc = (crc << 1) ^ CRC_POLYNOMIAL;
            } else {
                crc = crc << 1;
            }
            assert(crc == shift_in(rem, false)) by {
                assert(shift_in(rem, false) == if rem & 0x80 != 0 {
                    (rem << 1) ^ CRC_POLYNOMIAL
                } else {
                    rem << 1
                }) by (bit_vector);
            }
            k = k + 1;
        }
        proof {
            reveal_with_fuel(shift_zeros, 9);
            lemma_crc_push(data@.take(i as int), data@[i as int]);
            assert(data@.take(i as int).push(data@[i as int]) =~= data@.take(i + 1));
        }
        i = i + 1;
    }
    assert(data@.take(i as int) =~= data@);
    crc
}

/// Eight further zero bits, as a sum over the bits of the remainder: what each
/// of them contributes is a power of `x` modulo the generator.
spec fn shift_byte_sum(rem: u8) -> u8 {
    (if rem & 0x01 != 0 { 0x31u8 } else { 0 })
    ^ (if rem & 0x02 != 0 { 0x62u8 } else { 0 })
    ^ (if rem & 0x04 != 0 { 0xc4u8 } else { 0 })
    ^ (if rem & 0x08 != 0 { 0xb9u8 } else { 0 })
    ^ (if rem & 0x10 != 0 { 0x43u8 } else { 0 })
    ^ (if rem & 0x20 != 0 { 0x86u8 } else { 0 })
    ^ (if rem & 0x40 != 0 { 0x3du8 } else { 0 })
    ^ (if rem & 0x80 != 0 { 0x7au8 } else { 0 })
}

proof fn lemma_shift_byte_sum(rem: u8)
    ensures
        shift_byte(rem) == shift_byte_sum(rem),
{
    assert(shift_byte(rem) == shift_byte_sum(rem)) by (bit_vector);
}

/// A message that carries its own CRC as its last byte has the CRC zero, and
/// no other last byte gives it that.
pub proof fn law_crc_seals_message(data: Seq<u8>, last: u8)
    ensures
        crc8_of(data.push(last)) == 0 <==> last == crc8_of(data),
{
    lemma_crc_push(data, last);
    let crc = crc8_of(data);
    lemma_shift_byte_sum(crc ^ last);
    assert(shift_byte_sum(crc ^ last) == 0 <==> last == crc) by (bit_vector);
}

/// The CRC of no bytes is all ones, and one more byte multiplies the sum of the
/// CRC and the byte by `x^8`: each bit of the sum contributes its power of `x`
/// modulo `x^8 + x^5 + x^4 + 1`.
pub proof fn law_crc_takes_bytes(data: Seq<u8>, byte: u8)
    ensures
        crc8_of(Seq::empty()) == 0xff,
        ({
            let sum = crc8_of(data) ^ byte;
            crc8_of(data.push(byte)) == (if sum & 0x01 != 0 { 0x31u8 } else { 0 })
            ^ (if sum & 0x02 != 0 { 0x62u8 } else { 0 })
            ^ (if sum & 0x04 != 0 { 0xc4u8 } else { 0 })
            ^ (if sum & 0x08 != 0 { 0xb9u8 } else { 0 })
            ^ (if sum & 0x10 != 0 { 0x43u8 } else { 0 })
            ^ (if sum & 0x20 != 0 { 0x86u8 } else { 0 })
            ^ (if sum & 0x40 != 0 { 0x3du8 } else { 0 })
            ^ (if sum & 0x80 != 0 { 0x7au8 } else { 0 })
        }),
{
    lemma_crc_empty();
    lemma_crc_push(data, byte);
    lemma_shift_byte_sum(crc8_of(data) ^ byte);
}

/// The sum of two messages of the same length, byte by byte.
pub open spec fn xor(a: Seq<u8>, b: Seq<u8>) -> Seq<u8> {
    Seq::new(a.len(), |i: int| a[i] ^ b[i])
}

/// A change of one byte changes the CRC, however long the message is.
pub proof fn law_changed_byte_changes_crc(data: Seq<u8>, i: int, flips: u8)
    requires
        0 <= i < data.len(),
        flips != 0,
    ensures
        crc8_of(data.update(i, data[i] ^ flips)) != crc8_of(data),
    decreases data.len(),
{
    let changed = data.update(i, data[i] ^ flips);
    let head = data.drop_last();
    let changed_head = changed.drop_last();
    let (last, changed_last) = (data.last(), changed.last());
    assert(data =~= head.push(last) && changed =~= changed_head.push(changed_last));
    lemma_crc_push(head, last);
    lemma_crc_push(changed_head, changed_last);
    let (a, b) = (crc8_of(head), crc8_of(changed_head));
    if i == data.len() - 1 {
        assert(changed_head =~= head);
        assert(a ^ last != a ^ (last ^ flips)) by (bit_vector)
            requires
                flips != 0,
        ;
    } else {
        assert(changed_head =~= head.update(i, head[i] ^ flips));
        law_changed_byte_changes_crc(head, i, flips);
        assert(a ^ last != b ^ last) by (bit_vector)
            requires
                a != b,
        ;
    }
    let (x, y) = (a ^ last, b ^ changed_last);
    lemma_shift_byte_sum(x);
    lemma_shift_byte_sum(y);
    assert(shift_byte_sum(x) == shift_byte_sum(y) ==> x == y) by (bit_vector);
}

/// The CRC is linear but for its initial value: the CRCs of two messages of the
/// same length add up to that of their sum and that of as many zeros.
pub proof fn law_crc_is_linear(a: Seq<u8>, b: Seq<u8>)
    requires
        a.len() == b.len(),
    ensures
        crc8_of(a) ^ crc8_of(b) == crc8_of(xor(a, b)) ^ crc8_of(Seq::new(a.len(), |i: int| 0u8)),
    decreases a.len(),
{
    let sum = xor(a, b);
    let zeros = Seq::new(a.len(), |i: int| 0u8);
    if a.len() == 0 {
        assert(a =~= Seq::empty() && b =~= Seq::empty());
        assert(sum =~= Seq::empty() && zeros =~= Seq::empty());
    } else {
        let (a1, b1) = (a.drop_last(), b.drop_last());
        let zeros1 = Seq::new(a1.len(), |i: int| 0u8);
        let (s, t) = (a.last(), b.last());
        law_crc_is_linear(a1, b1);
        assert(a =~= a1.push(s) && b =~= b1.push(t));
        assert(sum =~= xor(a1, b1).push(s ^ t));
        assert(zeros =~= zeros1.push(0));
        lemma_crc_push(a1, s);
        lemma_crc_push(b1, t);
        lemma_crc_push(xor(a1, b1), s ^ t);
        lemma_crc_push(zeros1, 0);
        let (p, q) = (crc8_of(a1), crc8_of(b1));
        let (u, z) = (crc8_of(xor(a1, b1)), crc8_of(zeros1));
        lemma_shift_byte_sum(p ^ s);
        lemma_shift_byte_sum(q ^ t);
        lemma_shift_byte_sum(u ^ (s ^ t));
        lemma_shift_byte_sum(z ^ 0);
        let (w, v) = (p ^ s, q ^ t);
        let (g, h) = (u ^ (s ^ t), z ^ 0);
        lemma_sum_linear(w, v);
        lemma_sum_linear(g, h);
        assert(w ^ v == g ^ h) by (bit_vector)
            requires
                p ^ q == u ^ z,
                w == p ^ s,
                v == q ^ t,
                g == u ^ (s ^ t),
                h == z ^ 0,
        ;
    }
}

/// Eight further zero bits act on each summand on its own.
proof fn lemma_sum_linear(x: u8, y: u8)
    ensures
        shift_byte_sum(x ^ y) == shift_byte_sum(x) ^ shift_byte_sum(y),
{
    assert(shift_byte_sum(x ^ y) == shift_byte_sum(x) ^ shift_byte_sum(y)) by (bit_vector);
}

/// The CRC of a two-byte word.
proof fn lemma_crc_word(hi: u8, lo: u8)
    ensures
        crc8_of(seq![hi, lo]) == shift_byte_sum(shift_byte_sum(CRC_INIT ^ hi) ^ lo),
{
    let none = Seq::<u8>::empty();
    lemma_crc_empty();
    lemma_crc_push(none, hi);
    lemma_crc_push(none.push(hi), lo);
    lemma_shift_byte_sum(CRC_INIT ^ hi);
    lemma_shift_byte_sum(shift_byte(CRC_INIT ^ hi) ^ lo);
    assert(seq![hi, lo] =~= none.push(hi).push(lo));
}

/// The 24 bits of a word and its CRC, after the bits of `error` in them have
/// been flipped, are still a word and its CRC.
pub open spec fn error_goes_unnoticed(hi: u8, lo: u8, error: u32) -> bool {
    crc8_of(seq![hi ^ ((error >> 16u32) as u8), lo ^ ((error >> 8u32) as u8)]) == crc8_of(
        seq![hi, lo],
    ) ^ (error as u8)
}

/// Whether an error goes unnoticed does not depend on the word.
proof fn lemma_unnoticed(hi: u8, lo: u8, error: u32, a: u8, b: u8, c: u8)
    requires
        a == (error >> 16u32) as u8,
        b == (error >> 8u32) as u8,
        c == error as u8,
    ensures
        error_goes_unnoticed(hi, lo, error) <==> shift_byte_sum(shift_byte_sum(a) ^ b) == c,
{
    lemma_crc_word(hi, lo);
    lemma_crc_word(hi ^ a, lo ^ b);
    let h = shift_byte_sum(CRC_INIT ^ hi);
    let d = shift_byte_sum(a);
    lemma_sum_linear(CRC_INIT ^ hi, a);
    lemma_sum_linear(h ^ lo, d ^ b);
    assert(CRC_INIT ^ (hi ^ a) == (CRC_INIT ^ hi) ^ a) by (bit_vector);
    assert((h ^ d) ^ (lo ^ b) == (h ^ lo) ^ (d ^ b)) by (bit_vector);
    let crc = crc8_of(seq![hi, lo]);
    let change = shift_byte_sum(d ^ b);
    assert(crc ^ change == crc ^ c <==> change == c) by (bit_vector);
}

/// An error within eight neighbouring bits of a word and its CRC is noticed.
pub proof fn law_burst_errors_are_noticed(hi: u8, lo: u8, burst: u8, position: u32)
    requires
        burst != 0,
        position <= 16,
    ensures
        !error_goes_unnoticed(hi, lo, (burst as u32) << position),
{
    let error = (burst as u32) << position;
    let a = (error >> 16u32) as u8;
    let b = (error >> 8u32) as u8;
    let c = error as u8;
    lemma_unnoticed(hi, lo, error, a, b, c);
    assert(shift_byte_sum(shift_byte_sum(a) ^ b) != c) by (bit_vector)
        requires
            burst != 0,
            position <= 16,
            error == (burst as u32) << position,
            a == (error >> 16u32) as u8,
            b == (error >> 8u32) as u8,
            c == error as u8,
    ;
}

/// Two flipped bits of a word and its CRC are noticed.
pub proof fn law_double_errors_are_noticed(hi: u8, lo: u8, i: u32, j: u32)
    requires
        i < j < 24,
    ensures
        !error_goes_unnoticed(hi, lo, (1u32 << i) ^ (1u32 << j)),
{
    let error = (1u32 << i) ^ (1u32 << j);
    let a = (error >> 16u32) as u8;
    let b = (error >> 8u32) as u8;
    let c = error as u8;
    lemma_unnoticed(hi, lo, error, a, b, c);
    assert(shift_byte_sum(shift_byte_sum(a) ^ b) != c) by (bit_vector)
        requires
            i < j < 24,
            error == (1u32 << i) ^ (1u32 << j),
            a == (error >> 16u32) as u8,
            b == (error >> 8u32) as u8,
            c == error as u8,
    ;
}

/// The number of bits set in `error` is odd.
pub open spec fn odd_parity(error: u32) -> bool {
    let p16 = error ^ (error >> 16u32);
    let p8 = p16 ^ (p16 >> 8u32);
    let p4 = p8 ^ (p8 >> 4u32);
    let p2 = p4 ^ (p4 >> 2u32);
    (p2 ^ (p2 >> 1u32)) & 1 == 1
}

/// An odd number of flipped bits of a word and its CRC is noticed.
pub proof fn law_odd_errors_are_noticed(hi: u8, lo: u8, error: u32)
    requires
        error < 0x100_0000,
        odd_parity(error),
    ensures
        !error_goes_unnoticed(hi, lo, error),
{
    let a = (error >> 16u32) as u8;
    let b = (error >> 8u32) as u8;
    let c = error as u8;
    lemma_unnoticed(hi, lo, error, a, b, c);
    assert(shift_byte_sum(shift_byte_sum(a) ^ b) != c) by (bit_vector)
        requires
            error < 0x100_0000,
            odd_parity(error),
            a == (error >> 16u32) as u8,
            b == (error >> 8u32) as u8,
            c == error as u8,
    ;
}

} // verus!
