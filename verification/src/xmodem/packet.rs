//! Packets: how data is cut into blocks, framed, taken apart and checked.

use super::checksum::{checksum8, crc16_xmodem};
use super::{ChecksumMode, PAYLOAD_1024, PAYLOAD_128, SOH, STX, SUB};
use vstd::prelude::*;
use vstd::slice::slice_subrange;

verus! {

broadcast use vstd::seq_lib::group_seq_properties;

/// Whether a packet can hold a block of `len` bytes.
pub open spec fn is_payload_len(len: nat) -> bool {
    len == PAYLOAD_128 || len == PAYLOAD_1024
}

/// The first byte of a packet with `len` bytes of data.
pub open spec fn header_for(len: nat) -> u8 {
    if len == PAYLOAD_1024 {
        STX
    } else {
        SOH
    }
}

/// The number of data bytes that a packet's first byte announces.
pub open spec fn payload_len_of(header: u8) -> nat {
    if header == STX {
        PAYLOAD_1024 as nat
    } else {
        PAYLOAD_128 as nat
    }
}

/// The number of bytes in a check field.
pub open spec fn check_len(mode: ChecksumMode) -> nat {
    match mode {
        ChecksumMode::Checksum => 1,
        ChecksumMode::Crc => 2,
    }
}

/// The check field of a block: its 8-bit sum, or its CRC with the high byte first.
pub open spec fn check_field(payload: Seq<u8>, mode: ChecksumMode) -> Seq<u8> {
    match mode {
        ChecksumMode::Checksum => seq![super::checksum::sum8(payload)],
        ChecksumMode::Crc => {
            let crc = super::checksum::crc16(payload);
            seq![(crc >> 8) as u8, (crc & 0xFF) as u8]
        },
    }
}

/// The packet numbered `no` that carries `payload`:
/// `SOH/STX | no | 255 - no | payload | check field`.
pub open spec fn packet(no: u8, payload: Seq<u8>, mode: ChecksumMode) -> Seq<u8> {
    seq![header_for(payload.len()), no, (255 - no) as u8] + payload + check_field(payload, mode)
}

/// Frames a block of 128 or 1024 bytes.
pub fn build_packet(packet_no: u8, payload: &[u8], mode: ChecksumMode) -> (frame: Vec<u8>)
    requires
        is_payload_len(payload@.len()),
    ensures
        frame@ == packet(packet_no, payload@, mode),
{
    let header: u8 = if payload.len() == PAYLOAD_1024 {
        STX
    } else {
        SOH
    };
    let mut buf: Vec<u8> = Vec::with_capacity(payload.len() + 5);
    buf.push(header);
    buf.push(packet_no);
    assert(!packet_no == 255 - packet_no) by (bit_vector);
    buf.push(!packet_no);
    buf.extend_from_slice(payload);
    match mode {
        ChecksumMode::Checksum => {
            buf.push(checksum8(payload));
        },
        ChecksumMode::Crc => {
            let crc: u16 = crc16_xmodem(payload);
            buf.push((crc >> 8) as u8);
            buf.push((crc & 0xFF) as u8);
        },
    }
    assert(buf@ =~= packet(packet_no, payload@, mode));
    buf
}

/// Checks a block against the check field that came with it.
pub fn verify_packet(payload: &[u8], checksum: &[u8], mode: ChecksumMode) -> (ok: bool)
    ensures
        ok == (checksum@ == check_field(payload@, mode)),
{
    match mode {
        ChecksumMode::Checksum => {
            let ok: bool = checksum.len() == 1 && checksum[0] == checksum8(payload);
            assert(ok ==> checksum@ =~= check_field(payload@, mode));
            ok
        },
        ChecksumMode::Crc => {
            if checksum.len() != 2 {
                return false;
            }
            let crc: u16 = crc16_xmodem(payload);
            let high: u8 = checksum[0];
            let low: u8 = checksum[1];
            let ok: bool = crc == ((high as u16) << 8 | low as u16);
            assert(ok == (high == (crc >> 8) as u8 && low == (crc & 0xFF) as u8)) by (bit_vector)
                requires
                    ok == (crc == ((high as u16) << 8 | low as u16)),
            ;
            assert(ok ==> checksum@ =~= check_field(payload@, mode));
            ok
        },
    }
}

/// `block` filled up to `size` bytes with [`SUB`].
pub open spec fn padded(block: Seq<u8>, size: nat) -> Seq<u8> {
    block + Seq::new((size - block.len()) as nat, |i: int| SUB)
}

/// `data` cut into blocks of `size` bytes, the last one filled up.
pub open spec fn payloads(data: Seq<u8>, size: nat) -> Seq<Seq<u8>>
    decreases data.len(),
{
    if data.len() == 0 || size == 0 {
        Seq::empty()
    } else if data.len() <= size {
        seq![padded(data, size)]
    } else {
        seq![data.take(size as int)] + payloads(data.skip(size as int), size)
    }
}

/// The contents of a list of byte strings.
pub open spec fn contents(list: Seq<Vec<u8>>) -> Seq<Seq<u8>> {
    Seq::new(list.len(), |i: int| list[i]@)
}

/// Cuts data of any length into blocks, filling up the last one with [`SUB`].
pub fn split_into_payloads(data: &[u8], block_size: usize) -> (blocks: Vec<Vec<u8>>)
    requires
        block_size > 0 || data@.len() == 0,
    ensures
        contents(blocks@) == payloads(data@, block_size as nat),
{
    let mut out: Vec<Vec<u8>> = Vec::new();
    let mut start: usize = 0;
    assert(data@.skip(0) =~= data@);
    assert(contents(out@) =~= Seq::empty());
    while start < data.len()
        invariant
            start <= data@.len(),
            block_size > 0 || data@.len() == 0,
            contents(out@) + payloads(data@.skip(start as int), block_size as nat) == payloads(
                data@,
                block_size as nat,
            ),
        decreases data@.len() - start,
    {
        let left: usize = data.len() - start;
        let take: usize = if left < block_size {
            left
        } else {
            block_size
        };
        let mut block: Vec<u8> = Vec::with_capacity(take);
        block.extend_from_slice(slice_subrange(data, start, start + take));
        let ghost chunk = block@;
        block.resize(block_size, SUB);
        let ghost rest = data@.skip(start as int);
        let ghost so_far = contents(out@);
        out.push(block);
        proof {
            let next = data@.skip(start + take);
            assert(contents(out@) =~= so_far.push(block@));
            if rest.len() <= block_size {
                assert(chunk =~= rest);
                assert forall|i: int| 0 <= i < block_size implies block@[i] == padded(
                    rest,
                    block_size as nat,
                )[i] by {
                    if i < chunk.len() {
                        assert(block@.subrange(0, chunk.len() as int)[i] == chunk[i]);
                    }
                }
                assert(block@ =~= padded(rest, block_size as nat));
                assert(payloads(next, block_size as nat) =~= Seq::empty());
            } else {
                assert(block@ =~= rest.take(block_size as int));
                assert(rest.skip(block_size as int) =~= next);
            }
            assert(contents(out@) + payloads(next, block_size as nat) =~= so_far + payloads(
                rest,
                block_size as nat,
            ));
        }
        start = start + take;
    }
    assert(payloads(data@.skip(start as int), block_size as nat) =~= Seq::empty());
    assert(contents(out@) =~= payloads(data@, block_size as nat));
    out
}

/// The blocks, one after the other.
pub open spec fn joined(blocks: Seq<Seq<u8>>) -> Seq<u8>
    decreases blocks.len(),
{
    if blocks.len() == 0 {
        Seq::empty()
    } else {
        joined(blocks.drop_last()) + blocks.last()
    }
}

/// `data` without the [`SUB`] bytes at its end.
pub open spec fn stripped(data: Seq<u8>) -> Seq<u8>
    decreases data.len(),
{
    if data.len() > 0 && data.last() == SUB {
        stripped(data.drop_last())
    } else {
        data
    }
}

/// Drops the [`SUB`] bytes at the end, which fill up the last block of a transfer.
pub fn strip_padding(data: &mut Vec<u8>)
    ensures
        final(data)@ == stripped(old(data)@),
{
    while data.len() > 0 && data[data.len() - 1] == SUB
        invariant
            stripped(data@) == stripped(old(data)@),
        decreases data@.len(),
    {
        let ghost before = data@;
        data.pop();
        assert(data@ =~= before.drop_last());
    }
}

/// The number, the block and the check field of a frame, if it has the shape of a packet.
pub open spec fn frame_parts(frame: Seq<u8>) -> Option<(u8, Seq<u8>, Seq<u8>)> {
    let len = payload_len_of(frame[0]);
    if (frame.len() == len + 4 || frame.len() == len + 5) && (frame[0] == SOH || frame[0] == STX)
        && frame[2] == 255 - frame[1] {
        Some(
            (
                frame[1],
                frame.subrange(3, 3 + len as int),
                frame.subrange(3 + len as int, frame.len() as int),
            ),
        )
    } else {
        None
    }
}

/// Takes a frame apart into packet number, block and check field.
///
/// The first byte tells the size of the block; what is left over must be a check field of
/// one or two bytes. The number and its complement must agree.
pub fn parse_packet(frame: &[u8]) -> (parts: Option<(u8, &[u8], &[u8])>)
    ensures
        match parts {
            Some((no, payload, checksum)) => frame_parts(frame@) == Some(
                (no, payload@, checksum@),
            ),
            None => frame_parts(frame@) is None,
        },
{
    if frame.len() < 5 {
        return None;
    }
    let payload_len: usize = match frame[0] {
        SOH => PAYLOAD_128,
        STX => PAYLOAD_1024,
        _ => return None,
    };
    if frame.len() < 3 + payload_len {
        return None;
    }
    let checksum_len: usize = frame.len() - (3 + payload_len);
    if checksum_len != 1 && checksum_len != 2 {
        return None;
    }
    let packet_no: u8 = frame[1];
    assert(!packet_no == 255 - packet_no) by (bit_vector);
    if frame[2] != !packet_no {
        return None;
    }
    let payload: &[u8] = slice_subrange(frame, 3, 3 + payload_len);
    let checksum: &[u8] = slice_subrange(frame, 3 + payload_len, frame.len());
    Some((packet_no, payload, checksum))
}

/// The check that a frame with a check field of this length was made with.
pub open spec fn mode_for_check_len(len: nat) -> ChecksumMode {
    if len == 2 {
        ChecksumMode::Crc
    } else {
        ChecksumMode::Checksum
    }
}

/// Whether a frame is a packet whose check field is right.
pub open spec fn frame_is_valid(frame: Seq<u8>) -> bool {
    match frame_parts(frame) {
        Some((no, payload, check)) => check == check_field(
            payload,
            mode_for_check_len(check.len()),
        ),
        None => false,
    }
}

/// Checks a whole frame; the length of its check field tells the kind of check.
pub fn verify_frame(frame: &[u8]) -> (ok: bool)
    ensures
        ok == frame_is_valid(frame@),
{
    match parse_packet(frame) {
        Some((_no, payload, checksum)) => {
            let mode: ChecksumMode = if checksum.len() == 2 {
                ChecksumMode::Crc
            } else {
                ChecksumMode::Checksum
            };
            verify_packet(payload, checksum, mode)
        },
        None => false,
    }
}

proof fn lemma_check_field_len(payload: Seq<u8>, mode: ChecksumMode)
    ensures
        check_field(payload, mode).len() == check_len(mode),
        mode_for_check_len(check_len(mode)) == mode,
{
}

/// Taking a packet apart gives back the number, the block and the check field that it was
/// built from, and the packet passes its check.
pub proof fn law_packet_parses_back(no: u8, payload: Seq<u8>, mode: ChecksumMode)
    requires
        is_payload_len(payload.len()),
    ensures
        frame_parts(packet(no, payload, mode)) == Some((no, payload, check_field(payload, mode))),
        frame_is_valid(packet(no, payload, mode)),
        packet(no, payload, mode).len() == 3 + payload.len() + check_len(mode),
{
    let frame = packet(no, payload, mode);
    let n = payload.len() as int;
    lemma_check_field_len(payload, mode);
    assert(frame.subrange(3, 3 + n) =~= payload);
    assert(frame.subrange(3 + n, frame.len() as int) =~= check_field(payload, mode));
}

/// A packet with any one byte changed fails its check, whichever byte it is.
pub proof fn law_damaged_packet_is_refused(
    no: u8,
    payload: Seq<u8>,
    mode: ChecksumMode,
    damaged: Seq<u8>,
    at: int,
)
    requires
        is_payload_len(payload.len()),
        super::checksum::differ_only_at(packet(no, payload, mode), damaged, at),
    ensures
        !frame_is_valid(damaged),
{
    let frame = packet(no, payload, mode);
    let n = payload.len() as int;
    law_packet_parses_back(no, payload, mode);
    lemma_check_field_len(payload, mode);
    if let Some((no2, payload2, check2)) = frame_parts(damaged) {
        assert(damaged[0] == frame[0] || at == 0);
        if at >= 3 {
            assert(payload2.len() == n);
            assert(payload =~= frame.subrange(3, 3 + n));
            assert(check_field(payload, mode) =~= frame.subrange(3 + n, frame.len() as int));
            if at < 3 + n {
                assert(super::checksum::differ_only_at(payload, payload2, at - 3)) by {
                    assert forall|i: int| 0 <= i < n && i != at - 3 implies payload[i]
                        == payload2[i] by {
                        assert(frame[i + 3] == damaged[i + 3]);
                    }
                }
                assert(check2 =~= check_field(payload, mode));
                super::checksum::law_crc_detects_single_byte_change(payload, payload2, at - 3);
                super::checksum::law_sum_detects_single_byte_change(payload, payload2, at - 3);
                let crc1 = super::checksum::crc16(payload);
                let crc2 = super::checksum::crc16(payload2);
                assert(crc1 != crc2 ==> (crc1 >> 8) as u8 != (crc2 >> 8) as u8 || (crc1
                    & 0xFF) as u8 != (crc2 & 0xFF) as u8) by (bit_vector);
                match mode {
                    ChecksumMode::Checksum => {
                        assert(check_field(payload, mode)[0] != check_field(payload2, mode)[0]);
                    },
                    ChecksumMode::Crc => {
                        assert(check_field(payload, mode)[0] != check_field(payload2, mode)[0]
                            || check_field(payload, mode)[1] != check_field(payload2, mode)[1]);
                    },
                }
            } else {
                assert(payload2 =~= payload);
                assert(check2[at - 3 - n] != check_field(payload, mode)[at - 3 - n]);
            }
        }
    }
}

/// Every block has the full size; together they hold the data, followed by fewer than a
/// block's worth of [`SUB`] bytes. There is no block exactly when there is no data.
pub proof fn law_blocks_hold_the_data(data: Seq<u8>, size: nat)
    requires
        size > 0,
    ensures
        forall|i: int| 0 <= i < payloads(data, size).len() ==> payloads(data, size)[i].len()
            == size,
        data.len() <= joined(payloads(data, size)).len() < data.len() + size,
        joined(payloads(data, size)) == padded(data, joined(payloads(data, size)).len()),
        payloads(data, size).len() == 0 <==> data.len() == 0,
    decreases data.len(),
{
    let blocks = payloads(data, size);
    if data.len() == 0 {
        assert(joined(blocks) =~= padded(data, 0));
    } else if data.len() <= size {
        assert(blocks.drop_last() =~= Seq::<Seq<u8>>::empty());
        assert(joined(blocks.drop_last()) =~= Seq::<u8>::empty());
        assert(joined(blocks) =~= padded(data, size));
    } else {
        let first = data.take(size as int);
        let rest = payloads(data.skip(size as int), size);
        law_blocks_hold_the_data(data.skip(size as int), size);
        lemma_joined_cons(first, rest);
        assert(joined(blocks) =~= padded(data, joined(blocks).len()));
        assert forall|i: int| 0 <= i < blocks.len() implies blocks[i].len() == size by {
            if i > 0 {
                assert(blocks[i] == rest[i - 1]);
            }
        }
    }
}

proof fn lemma_joined_cons(first: Seq<u8>, rest: Seq<Seq<u8>>)
    ensures
        joined(seq![first] + rest) == first + joined(rest),
    decreases rest.len(),
{
    let all = seq![first] + rest;
    if rest.len() == 0 {
        assert(all.drop_last() =~= Seq::empty());
        assert(joined(all) =~= first + joined(rest));
    } else {
        assert(all.drop_last() =~= seq![first] + rest.drop_last());
        lemma_joined_cons(first, rest.drop_last());
        assert(joined(all) =~= first + joined(rest));
    }
}

proof fn lemma_stripped_padding(data: Seq<u8>, size: nat)
    requires
        data.len() <= size,
    ensures
        stripped(padded(data, size)) == stripped(data),
    decreases size,
{
    if data.len() == size {
        assert(padded(data, size) =~= data);
    } else {
        assert(padded(data, size).drop_last() =~= padded(data, (size - 1) as nat));
        lemma_stripped_padding(data, (size - 1) as nat);
    }
}

/// Cutting data into blocks, joining the blocks and dropping the [`SUB`] bytes at the end
/// gives the data back, apart from [`SUB`] bytes at its own end.
pub proof fn law_split_then_strip(data: Seq<u8>, size: nat)
    requires
        size > 0,
    ensures
        stripped(joined(payloads(data, size))) == stripped(data),
        data.len() > 0 && data.last() != SUB ==> stripped(joined(payloads(data, size))) == data,
{
    law_blocks_hold_the_data(data, size);
    lemma_stripped_padding(data, joined(payloads(data, size)).len());
}

} // verus!
