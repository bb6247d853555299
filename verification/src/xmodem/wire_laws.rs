//! What goes over the line, byte by byte: packets, blocks and the bytes in between, as any
//! other implementation of the protocol expects them.

use super::checksum::{crc16, law_crc_is_zero_only_of_checked_message, sum8};
use super::packet::{
    check_field, frame_is_valid, frame_parts, packet, payloads, stripped,
};
use super::receiver::intact;
use super::ChecksumMode;
use vstd::prelude::*;

verus! {

// ---------------------------------------------------------------------------------------
// Packets
// ---------------------------------------------------------------------------------------

/// Whether a frame has the outside of a packet with `size` data bytes and `check` check bytes:
/// 1 or 2 in front, then a number and what is missing from it to 255.
pub open spec fn is_framed(frame: Seq<u8>, size: nat, check: nat) -> bool {
    &&& size == 128 || size == 1024
    &&& frame.len() == 3 + size + check
    &&& frame[0] == if size == 1024 {
        0x02u8
    } else {
        0x01u8
    }
    &&& frame[1] + frame[2] == 255
}

/// Whether a frame is a packet with `size` data bytes that passes this check: everything after
/// its number has CRC zero, or its last byte is the sum of its data.
pub open spec fn passes(frame: Seq<u8>, size: nat, mode: ChecksumMode) -> bool {
    match mode {
        ChecksumMode::Crc => is_framed(frame, size, 2) && crc16(frame.skip(3)) == 0,
        ChecksumMode::Checksum => is_framed(frame, size, 1) && frame[3 + size as int] == sum8(
            frame.subrange(3, 3 + size as int),
        ),
    }
}

/// The check field of a block is the one that makes the CRC of block and field together zero,
/// or the sum of the block.
pub proof fn law_check_field(payload: Seq<u8>, check: Seq<u8>, mode: ChecksumMode)
    ensures
        check == check_field(payload, mode) <==> match mode {
            ChecksumMode::Crc => check.len() == 2 && crc16(payload + check) == 0,
            ChecksumMode::Checksum => check.len() == 1 && check[0] == sum8(payload),
        },
{
    let crc = crc16(payload);
    let field = check_field(payload, mode);
    match mode {
        ChecksumMode::Crc => {
            if check.len() == 2 {
                let high = check[0];
                let low = check[1];
                law_crc_is_zero_only_of_checked_message(payload, high, low);
                assert(payload + check =~= payload.push(high).push(low));
                assert(crc == high * 256 + low <==> (high == (crc >> 8) as u8 && low == (crc
                    & 0xFF) as u8)) by (bit_vector);
                assert(field[0] == (crc >> 8) as u8 && field[1] == (crc & 0xFF) as u8);
                if high == field[0] && low == field[1] {
                    assert(check =~= field);
                }
            }
        },
        ChecksumMode::Checksum => {
            if check.len() == 1 && check[0] == sum8(payload) {
                assert(check =~= field);
            }
        },
    }
}

/// A packet: 1 before 128 bytes of data and 2 before 1024, the number, what is missing from it
/// to 255, the data, and a check field that makes it pass.
pub proof fn law_packet_layout(no: u8, payload: Seq<u8>, mode: ChecksumMode)
    requires
        payload.len() == 128 || payload.len() == 1024,
    ensures
        ({
            let frame = packet(no, payload, mode);
            let size = payload.len();
            &&& frame.len() == size + match mode {
                ChecksumMode::Crc => 5int,
                ChecksumMode::Checksum => 4int,
            }
            &&& frame[0] == if size == 1024 {
                0x02u8
            } else {
                0x01u8
            }
            &&& frame[1] == no
            &&& frame[2] == 255 - no
            &&& frame.subrange(3, 3 + size as int) == payload
            &&& passes(frame, size, mode)
        }),
{
    let frame = packet(no, payload, mode);
    let size = payload.len();
    let field = check_field(payload, mode);
    law_check_field(payload, field, mode);
    assert(frame.subrange(3, 3 + size as int) =~= payload);
    assert(frame.skip(3) =~= payload + field);
}

/// A frame is taken apart exactly when it has the outside of a packet, and its parts are the
/// bytes that stand where they belong.
pub proof fn law_parts_of_a_frame(frame: Seq<u8>)
    ensures
        frame_parts(frame) == (if is_framed(frame, 128, 1) || is_framed(frame, 128, 2) {
            Some((frame[1], frame.subrange(3, 131), frame.skip(131)))
        } else if is_framed(frame, 1024, 1) || is_framed(frame, 1024, 2) {
            Some((frame[1], frame.subrange(3, 1027), frame.skip(1027)))
        } else {
            None
        }),
{
    if let Some((no, payload, check)) = frame_parts(frame) {
        if frame[0] == 0x02 {
            assert(frame.skip(1027) =~= check);
        } else {
            assert(frame.skip(131) =~= check);
        }
    }
}

/// With an agreed check, a frame is good exactly when it is a packet that passes it; what comes
/// out of it is its number and its data.
pub proof fn law_only_packets_that_pass_are_good(frame: Seq<u8>, mode: ChecksumMode)
    ensures
        intact(frame, mode) == (if passes(frame, 128, mode) {
            Some((frame[1], frame.subrange(3, 131)))
        } else if passes(frame, 1024, mode) {
            Some((frame[1], frame.subrange(3, 1027)))
        } else {
            None
        }),
{
    law_parts_of_a_frame(frame);
    if let Some((no, payload, check)) = frame_parts(frame) {
        law_check_field(payload, check, mode);
        assert(payload + check =~= frame.skip(3));
    }
}

/// With no agreed check, a frame is good exactly when it is a packet that passes the check
/// which its length tells.
pub proof fn law_only_packets_that_pass_are_valid(frame: Seq<u8>)
    ensures
        frame_is_valid(frame) <==> {
            ||| passes(frame, 128, ChecksumMode::Crc)
            ||| passes(frame, 128, ChecksumMode::Checksum)
            ||| passes(frame, 1024, ChecksumMode::Crc)
            ||| passes(frame, 1024, ChecksumMode::Checksum)
        },
{
    law_parts_of_a_frame(frame);
    law_only_packets_that_pass_are_good(frame, ChecksumMode::Crc);
    law_only_packets_that_pass_are_good(frame, ChecksumMode::Checksum);
    if let Some((no, payload, check)) = frame_parts(frame) {
        law_check_field(payload, check, ChecksumMode::Crc);
        law_check_field(payload, check, ChecksumMode::Checksum);
    }
}

// ---------------------------------------------------------------------------------------
// Blocks
// ---------------------------------------------------------------------------------------

/// The number of blocks of `size` bytes that `len` bytes take.
pub open spec fn blocks_needed(len: nat, size: nat) -> int {
    (len + size - 1) / size as int
}

/// Data is cut into as few blocks as hold it, and each byte of a block is the byte of the data
/// at its place, or 0x1A where the data is over.
pub proof fn law_blocks_byte_by_byte(data: Seq<u8>, size: nat)
    requires
        size > 0,
    ensures
        payloads(data, size).len() == blocks_needed(data.len(), size),
        forall|i: int|
            0 <= i < payloads(data, size).len() ==> (#[trigger] payloads(data, size)[i]).len()
                == size,
        forall|i: int, j: int|
            0 <= i < payloads(data, size).len() && 0 <= j < size ==> #[trigger] payloads(
                data,
                size,
            )[i][j] == if i * size + j < data.len() {
                data[i * size + j]
            } else {
                0x1Au8
            },
    decreases data.len(),
{
    let blocks = payloads(data, size);
    if data.len() == 0 {
        assert((size - 1) / size as int == 0) by (nonlinear_arith)
            requires
                size > 0,
        ;
    } else if data.len() <= size {
        assert((data.len() + size - 1) / size as int == 1) by (nonlinear_arith)
            requires
                0 < data.len() <= size,
        ;
        assert(0 * size == 0);
    } else {
        let rest = data.skip(size as int);
        let tail = payloads(rest, size);
        law_blocks_byte_by_byte(rest, size);
        assert((data.len() + size - 1) / size as int == 1 + (rest.len() + size - 1) / size as int)
            by (nonlinear_arith)
            requires
                size > 0,
                rest.len() == data.len() - size,
        ;
        assert forall|i: int, j: int| 0 <= i < blocks.len() && 0 <= j < size implies #[trigger]
        blocks[i][j] == if i * size + j < data.len() {
            data[i * size + j]
        } else {
            0x1Au8
        } by {
            if i == 0 {
                assert(i * size == 0) by (nonlinear_arith)
                    requires
                        i == 0,
                ;
            } else {
                assert(blocks[i] == tail[i - 1]);
                assert(tail[i - 1][j] == blocks[i][j]);
                assert(i * size == (i - 1) * size + size) by (nonlinear_arith);
                assert((i - 1) * size >= 0) by (nonlinear_arith)
                    requires
                        i >= 1,
                ;
            }
        }
        assert forall|i: int| 0 <= i < blocks.len() implies (#[trigger] blocks[i]).len() == size by {
            if i > 0 {
                assert(blocks[i] == tail[i - 1]);
            }
        }
    }
}

/// Stripping takes off bytes 0x1A at the end, all of them, and nothing else.
pub proof fn law_only_filling_is_stripped(data: Seq<u8>)
    ensures
        stripped(data).is_prefix_of(data),
        forall|i: int| stripped(data).len() <= i < data.len() ==> #[trigger] data[i] == 0x1A,
        stripped(data).len() > 0 ==> stripped(data).last() != 0x1A,
    decreases data.len(),
{
    if data.len() > 0 && data.last() == 0x1A {
        let shorter = data.drop_last();
        law_only_filling_is_stripped(shorter);
        assert forall|i: int| stripped(data).len() <= i < data.len() implies #[trigger] data[i]
            == 0x1A by {
            if i < shorter.len() {
                assert(shorter[i] == data[i]);
            }
        }
    }
}

} // verus!
