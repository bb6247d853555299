//! The two integrity checks that a packet can carry: an 8-bit sum and CRC-16/XMODEM.

use vstd::prelude::*;

verus! {

/// One step of the long division that defines the CRC: shift one message bit into a
/// 16-bit remainder, and subtract the generator x^16 + x^12 + x^5 + 1 when a bit falls out.
pub open spec fn crc_bit(rem: u16, bit: bool) -> u16 {
    if (rem & 0x8000 != 0) != bit {
        (rem << 1) ^ 0x1021
    } else {
        rem << 1
    }
}

/// Divides in the eight bits of `byte`, most significant first.
pub open spec fn crc_byte(rem: u16, byte: u8) -> u16 {
    let r7 = crc_bit(rem, byte & 0x80 != 0);
    let r6 = crc_bit(r7, byte & 0x40 != 0);
    let r5 = crc_bit(r6, byte & 0x20 != 0);
    let r4 = crc_bit(r5, byte & 0x10 != 0);
    let r3 = crc_bit(r4, byte & 0x08 != 0);
    let r2 = crc_bit(r3, byte & 0x04 != 0);
    let r1 = crc_bit(r2, byte & 0x02 != 0);
    crc_bit(r1, byte & 0x01 != 0)
}

/// CRC-16/XMODEM of `data`: the remainder after all its bytes, starting from zero.
pub open spec fn crc16(data: Seq<u8>) -> u16
    decreases data.len(),
{
    if data.len() == 0 {
        0
    } else {
        crc_byte(crc16(data.drop_last()), data.last())
    }
}

/// The sum of the bytes of `data`.
pub open spec fn byte_sum(data: Seq<u8>) -> nat
    decreases data.len(),
{
    if data.len() == 0 {
        0
    } else {
        byte_sum(data.drop_last()) + data.last() as nat
    }
}

/// The 8-bit sum of `data`.
pub open spec fn sum8(data: Seq<u8>) -> u8 {
    (byte_sum(data) % 256) as u8
}

/// A remainder shifted once with nothing coming in.
spec fn crc_shift(rem: u16) -> u16 {
    if rem & 0x8000 != 0 {
        (rem << 1) ^ 0x1021
    } else {
        rem << 1
    }
}

spec fn crc_shifts(rem: u16, n: nat) -> u16
    decreases n,
{
    if n == 0 {
        rem
    } else {
        crc_shift(crc_shifts(rem, (n - 1) as nat))
    }
}

/// Adding the whole byte to the top of the remainder first and then shifting eight times
/// is the same as dividing in its bits one by one.
proof fn lemma_byte_at_once(rem: u16, byte: u8)
    ensures
        crc_shifts(rem ^ ((byte as u16) << 8), 8) == crc_byte(rem, byte),
{
    let s0 = rem ^ ((byte as u16) << 8);
    reveal_with_fuel(crc_shifts, 9);
    assert(crc_shift(crc_shift(crc_shift(crc_shift(crc_shift(crc_shift(crc_shift(crc_shift(s0))))))))
        == crc_byte(rem, byte)) by (bit_vector)
        requires
            s0 == rem ^ ((byte as u16) << 8),
    ;
}

/// Computes CRC-16/XMODEM (polynomial 0x1021, initial value 0, nothing reflected).
pub fn crc16_xmodem(data: &[u8]) -> (crc: u16)
    ensures
        crc == crc16(data@),
{
    let mut crc: u16 = 0;
    let mut i: usize = 0;
    assert(data@.take(0) =~= Seq::<u8>::empty());
    while i < data.len()
        invariant
            i <= data@.len(),
            crc == crc16(data@.take(i as int)),
        decreases data@.len() - i,
    {
        let byte: u8 = data[i];
        let ghost before = crc;
        crc = crc ^ ((byte as u16) << 8);
        let ghost start = crc;
        let mut k: u32 = 0;
        while k < 8
            invariant
                k <= 8,
                crc == crc_shifts(start, k as nat),
            decreases 8 - k,
        {
            if crc & 0x8000 != 0 {
                crc = (crc << 1) ^ 0x1021;
            } else {
                crc = crc << 1;
            }
            k = k + 1;
        }
        proof {
            lemma_byte_at_once(before, byte);
            assert(data@.take(i + 1).drop_last() =~= data@.take(i as int));
        }
        i = i + 1;
    }
    assert(data@.take(data@.len() as int) =~= data@);
    crc
}

/// Computes the 8-bit sum of `data`, dropping carries.
pub fn checksum8(data: &[u8]) -> (sum: u8)
    ensures
        sum == sum8(data@),
{
    let mut sum: u8 = 0;
    let mut i: usize = 0;
    assert(data@.take(0) =~= Seq::<u8>::empty());
    while i < data.len()
        invariant
            i <= data@.len(),
            sum == sum8(data@.take(i as int)),
        decreases data@.len() - i,
    {
        sum = sum.wrapping_add(data[i]);
        proof {
            assert(data@.take(i + 1).drop_last() =~= data@.take(i as int));
        }
        i = i + 1;
    }
    assert(data@.take(data@.len() as int) =~= data@);
    sum
}

/// A byte divided into the same remainder, or two remainders given the same byte, never
/// collide.
proof fn lemma_crc_byte_injective(rem1: u16, byte1: u8, rem2: u16, byte2: u8)
    ensures
        rem1 == rem2 && byte1 != byte2 ==> crc_byte(rem1, byte1) != crc_byte(rem2, byte2),
        rem1 != rem2 && byte1 == byte2 ==> crc_byte(rem1, byte1) != crc_byte(rem2, byte2),
{
    assert(rem1 == rem2 && byte1 != byte2 ==> crc_byte(rem1, byte1) != crc_byte(rem2, byte2))
        by (bit_vector);
    assert(rem1 != rem2 && byte1 == byte2 ==> crc_byte(rem1, byte1) != crc_byte(rem2, byte2))
        by (bit_vector);
}

/// The CRC, appended to the message with its high byte first, makes the whole divisible by
/// the generator: the CRC of message and check field together is zero.
pub proof fn law_crc_of_checked_message_is_zero(data: Seq<u8>)
    ensures
        crc16(data.push((crc16(data) >> 8) as u8).push((crc16(data) & 0xFF) as u8)) == 0,
{
    let rem = crc16(data);
    let high = (rem >> 8) as u8;
    let low = (rem & 0xFF) as u8;
    let mid = crc_byte(rem, high);
    assert(crc16(data.push(high)) == mid) by {
        assert(data.push(high).drop_last() =~= data);
    }
    assert(crc16(data.push(high).push(low)) == crc_byte(mid, low)) by {
        assert(data.push(high).push(low).drop_last() =~= data.push(high));
    }
    assert(mid == rem << 8) by {
        assert(crc_byte(rem, (rem >> 8) as u8) == rem << 8) by (bit_vector);
    }
    assert(crc_byte(mid, low) == 0) by (bit_vector)
        requires
            mid == rem << 8,
            low == (rem & 0xFF) as u8,
    ;
}

/// Whether `a` and `b` have the same length and differ in exactly the byte at `at`.
pub open spec fn differ_only_at(a: Seq<u8>, b: Seq<u8>, at: int) -> bool {
    &&& a.len() == b.len()
    &&& 0 <= at < a.len()
    &&& a[at] != b[at]
    &&& forall|i: int| 0 <= i < a.len() && i != at ==> a[i] == b[i]
}

/// Changing any one byte of a message changes its CRC.
pub proof fn law_crc_detects_single_byte_change(a: Seq<u8>, b: Seq<u8>, at: int)
    requires
        differ_only_at(a, b, at),
    ensures
        crc16(a) != crc16(b),
    decreases a.len(),
{
    let a0 = a.drop_last();
    let b0 = b.drop_last();
    lemma_crc_byte_injective(crc16(a0), a.last(), crc16(b0), b.last());
    if at == a.len() - 1 {
        assert(a0 =~= b0);
    } else {
        law_crc_detects_single_byte_change(a0, b0, at);
    }
}

proof fn lemma_byte_sum_update(a: Seq<u8>, b: Seq<u8>, at: int)
    requires
        differ_only_at(a, b, at),
    ensures
        byte_sum(a) - a[at] == byte_sum(b) - b[at],
    decreases a.len(),
{
    if at == a.len() - 1 {
        assert(a.drop_last() =~= b.drop_last());
    } else {
        lemma_byte_sum_update(a.drop_last(), b.drop_last(), at);
    }
}

/// Changing any one byte of a message changes its 8-bit sum.
pub proof fn law_sum_detects_single_byte_change(a: Seq<u8>, b: Seq<u8>, at: int)
    requires
        differ_only_at(a, b, at),
    ensures
        sum8(a) != sum8(b),
{
    lemma_byte_sum_update(a, b, at);
}

/// The CRC of one byte.
proof fn lemma_crc_of_byte(byte: u8)
    ensures
        crc16(seq![byte]) == crc_byte(0, byte),
{
    assert(seq![byte].drop_last() =~= Seq::<u8>::empty());
    assert(crc16(Seq::<u8>::empty()) == 0);
}

/// The CRC of a message of any length follows from those of single bytes: the high byte of the
/// remainder falls out, and what it comes to, together with the next byte, is added to the rest.
pub proof fn law_crc_byte_by_byte(data: Seq<u8>, byte: u8)
    ensures
        crc16(Seq::<u8>::empty()) == 0,
        crc16(data.push(byte)) == (crc16(data) << 8) ^ crc16(
            seq![((crc16(data) >> 8) as u8) ^ byte],
        ),
{
    let rem = crc16(data);
    let first = ((rem >> 8) as u8) ^ byte;
    assert(data.push(byte).drop_last() =~= data);
    lemma_crc_of_byte(first);
    assert(crc_byte(rem, byte) == (rem << 8) ^ crc_byte(0, first)) by (bit_vector)
        requires
            first == ((rem >> 8) as u8) ^ byte,
    ;
}

/// The CRC of a single byte is that of division by x^16 + x^12 + x^5 + 1: the byte 1 leaves
/// 0x1021, a byte twice as large leaves twice the remainder, with 0x1021 taken off when a bit
/// falls out, and the remainder of a sum is the sum of the remainders.
pub proof fn law_crc_of_single_bytes(a: u8, b: u8)
    ensures
        crc16(seq![1u8]) == 0x1021,
        a < 0x80 && crc16(seq![a]) < 0x8000 ==> crc16(seq![(a * 2) as u8]) == crc16(seq![a]) * 2,
        a < 0x80 && crc16(seq![a]) >= 0x8000 ==> crc16(seq![(a * 2) as u8]) == ((crc16(seq![a]) * 2
            - 0x10000) as u16) ^ 0x1021,
        crc16(seq![a ^ b]) == crc16(seq![a]) ^ crc16(seq![b]),
{
    lemma_crc_of_byte(1);
    lemma_crc_of_byte(a);
    lemma_crc_of_byte(b);
    lemma_crc_of_byte(a ^ b);
    lemma_crc_of_byte((a * 2) as u8);
    assert(crc_byte(0, 1) == 0x1021) by (bit_vector);
    assert(crc_byte(0, a ^ b) == crc_byte(0, a) ^ crc_byte(0, b)) by (bit_vector);
    let rem = crc_byte(0, a);
    assert(a < 0x80 && rem < 0x8000 ==> crc_byte(0, (a * 2) as u8) == rem * 2) by (bit_vector)
        requires
            rem == crc_byte(0, a),
    ;
    assert(a < 0x80 && rem >= 0x8000 ==> crc_byte(0, (a * 2) as u8) == ((rem * 2 - 0x10000) as u16)
        ^ 0x1021) by (bit_vector)
        requires
            rem == crc_byte(0, a),
    ;
}

/// The one remainder from which a byte leads to a remainder with a low byte of zero.
proof fn lemma_crc_byte_undone(rem: u16, byte: u8, rest: u8)
    ensures
        crc_byte(rem, byte) == rest * 256 <==> rem == byte * 256 + rest,
{
    assert(crc_byte(rem, byte) == rest * 256 <==> rem == byte * 256 + rest) by (bit_vector);
}

/// A message of which the last two bytes are a check field is divisible by the generator
/// exactly when the check field is the CRC of the rest, high byte first.
pub proof fn law_crc_is_zero_only_of_checked_message(data: Seq<u8>, high: u8, low: u8)
    ensures
        crc16(data.push(high).push(low)) == 0 <==> crc16(data) == high * 256 + low,
{
    let rem = crc16(data);
    assert(data.push(high).drop_last() =~= data);
    assert(data.push(high).push(low).drop_last() =~= data.push(high));
    assert(crc16(data.push(high)) == crc_byte(rem, high));
    assert(crc16(data.push(high).push(low)) == crc_byte(crc_byte(rem, high), low));
    lemma_crc_byte_undone(crc_byte(rem, high), low, 0);
    lemma_crc_byte_undone(rem, high, low);
}

proof fn lemma_byte_sum_add(a: Seq<u8>, b: Seq<u8>)
    ensures
        byte_sum(a + b) == byte_sum(a) + byte_sum(b),
    decreases b.len(),
{
    if b.len() == 0 {
        assert(a + b =~= a);
    } else {
        lemma_byte_sum_add(a, b.drop_last());
        assert((a + b).drop_last() =~= a + b.drop_last());
    }
}

/// The sum of two messages, one after the other, is the sum of their sums, without carries;
/// the sum of one byte is that byte.
pub proof fn law_sum_adds_up(a: Seq<u8>, b: Seq<u8>, byte: u8)
    ensures
        sum8(Seq::<u8>::empty()) == 0,
        sum8(seq![byte]) == byte,
        sum8(a + b) == (sum8(a) + sum8(b)) % 256,
{
    assert(seq![byte].drop_last() =~= Seq::<u8>::empty());
    assert(byte_sum(Seq::<u8>::empty()) == 0);
    lemma_byte_sum_add(a, b);
}

} // verus!
