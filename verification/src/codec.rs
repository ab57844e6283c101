//! The wire codec: big-endian integers, the 64-byte padded string form in
//! Code Page 437, the 1024-byte array form, and the 16 packet layouts.

use vstd::prelude::*;
use codepage_437::ToCp437;
use codepage_437::FromCp437;
use crate::packet::{Packet, PacketV};

verus! {

/// The two big-endian bytes of a 16-bit value.
pub open spec fn spec_be16(v: i16) -> Seq<u8> {
    seq![((v as u16) >> 8u16) as u8, (v as u16) as u8]
}

/// The 16-bit value read from two big-endian bytes.
pub open spec fn spec_i16_from_be(b0: u8, b1: u8) -> i16 {
    ((b0 as u16) << 8u16 | (b1 as u16)) as i16
}

/// The four big-endian bytes of a 32-bit value.
pub open spec fn spec_be32(v: u32) -> Seq<u8> {
    seq![(v >> 24u32) as u8, (v >> 16u32) as u8, (v >> 8u32) as u8, v as u8]
}

pub proof fn lemma_be16_round_trip(v: i16)
    ensures
        spec_i16_from_be(spec_be16(v)[0], spec_be16(v)[1]) == v,
{
    let b0 = ((v as u16) >> 8u16) as u8;
    let b1 = (v as u16) as u8;
    assert(((b0 as u16) << 8u16 | (b1 as u16)) as i16 == v) by (bit_vector)
        requires
            b0 == ((v as u16) >> 8u16) as u8,
            b1 == (v as u16) as u8,
    ;
}

pub fn i16_to_be(v: i16) -> (r: (u8, u8))
    ensures
        seq![r.0, r.1] == spec_be16(v),
{
    let u = v as u16;
    ((u >> 8) as u8, u as u8)
}

pub fn i16_from_be(b0: u8, b1: u8) -> (r: i16)
    ensures
        r == spec_i16_from_be(b0, b1),
{
    ((b0 as u16) << 8 | (b1 as u16)) as i16
}

pub fn u32_to_be(v: u32) -> (r: Vec<u8>)
    ensures
        r@ == spec_be32(v),
{
    let mut out: Vec<u8> = Vec::new();
    out.push((v >> 24) as u8);
    out.push((v >> 16) as u8);
    out.push((v >> 8) as u8);
    out.push(v as u8);
    proof {
        assert(out@ =~= spec_be32(v));
    }
    out
}

/// What the wingdings dialect of Code Page 437 encodes a text to, when
/// every character of the text is in the code page.
pub uninterp spec fn cp437_encode_of(s: Seq<char>) -> Option<Seq<u8>>;

/// What the wingdings dialect of Code Page 437 decodes bytes to.
pub uninterp spec fn cp437_decode_of(b: Seq<u8>) -> Seq<char>;

/// Relies on codepage_437's ToCp437 with the wingdings dialect: one byte
/// per character, failing on a character outside the code page.
#[verifier::external_body]
fn cp437_encode(s: &str) -> (r: Option<Vec<u8>>)
    ensures
        r matches Some(v) ==> cp437_encode_of(s@) == Some(v@) && v@.len() == s@.len(),
        r is None ==> cp437_encode_of(s@) is None,
{
    match s.to_cp437(&codepage_437::CP437_WINGDINGS) {
        Ok(v) => Some(v.into_owned()),
        Err(_) => None,
    }
}

/// Relies on codepage_437's FromCp437 with the wingdings dialect: one
/// character per byte, never failing.
#[verifier::external_body]
fn cp437_decode(b: Vec<u8>) -> (r: String)
    ensures
        r@ == cp437_decode_of(b@),
        r@.len() == b@.len(),
{
    String::from_cp437(b, &codepage_437::CP437_WINGDINGS)
}

/// Truncation to 64 bytes with a `...` marker, or right-padding with
/// spaces.
pub open spec fn spec_pad64(b: Seq<u8>) -> Seq<u8> {
    if b.len() > 64 {
        b.subrange(0, 61) + seq![0x2eu8, 0x2eu8, 0x2eu8]
    } else {
        b + Seq::new((64 - b.len()) as nat, |i: int| 0x20u8)
    }
}

/// Walk over trailing spaces from the right; if the first byte before
/// them is an ampersand, replace it with a percent sign.
pub open spec fn spec_amp_fix(b: Seq<u8>) -> Seq<u8>
    decreases b.len(),
{
    if b.len() == 0 {
        b
    } else if b.last() == 0x20u8 {
        spec_amp_fix(b.drop_last()).push(0x20u8)
    } else if b.last() == 0x26u8 {
        b.update(b.len() - 1, 0x25u8)
    } else {
        b
    }
}

/// The 64 bytes of a string field on the wire.
pub open spec fn spec_wire_string(s: Seq<char>) -> Option<Seq<u8>> {
    match cp437_encode_of(s) {
        Some(b) => Some(spec_amp_fix(spec_pad64(b))),
        None => None,
    }
}

/// Trailing spaces and NULs are dropped before decoding.
pub open spec fn spec_trim_right(b: Seq<u8>) -> Seq<u8>
    decreases b.len(),
{
    if b.len() == 0 {
        b
    } else if b.last() == 0x20u8 || b.last() == 0x00u8 {
        spec_trim_right(b.drop_last())
    } else {
        b
    }
}

/// The text read back from a 64-byte string field.
pub open spec fn spec_read_string(b: Seq<u8>) -> Seq<char> {
    cp437_decode_of(spec_trim_right(b))
}

proof fn lemma_amp_fix_skip(b: Seq<u8>, k: int)
    requires
        0 <= k <= b.len(),
        forall|j: int| k <= j < b.len() ==> b[j] == 0x20u8,
    ensures
        spec_amp_fix(b) == spec_amp_fix(b.subrange(0, k)) + b.subrange(k, b.len() as int),
    decreases b.len() - k,
{
    if k == b.len() {
        assert(b.subrange(0, k) =~= b);
        assert(spec_amp_fix(b.subrange(0, k)) + b.subrange(k, b.len() as int) =~= spec_amp_fix(
            b,
        ));
    } else {
        assert(b.last() == 0x20u8);
        assert(b.drop_last() =~= b.subrange(0, b.len() - 1));
        lemma_amp_fix_skip(b.drop_last(), k);
        assert(b.drop_last().subrange(0, k) =~= b.subrange(0, k));
        assert((spec_amp_fix(b.subrange(0, k)) + b.drop_last().subrange(k, b.len() - 1)).push(
            0x20u8,
        ) =~= spec_amp_fix(b.subrange(0, k)) + b.subrange(k, b.len() as int));
    }
}

proof fn lemma_trim_right_skip(b: Seq<u8>, k: int)
    requires
        0 <= k <= b.len(),
        forall|j: int| k <= j < b.len() ==> b[j] == 0x20u8 || b[j] == 0x00u8,
    ensures
        spec_trim_right(b) == spec_trim_right(b.subrange(0, k)),
    decreases b.len() - k,
{
    if k == b.len() {
        assert(b.subrange(0, k) =~= b);
    } else {
        assert(b.last() == 0x20u8 || b.last() == 0x00u8);
        assert(b.drop_last() =~= b.subrange(0, b.len() - 1));
        lemma_trim_right_skip(b.drop_last(), k);
        assert(b.drop_last().subrange(0, k) =~= b.subrange(0, k));
    }
}

/// Encode a string field: exactly 64 bytes, or nothing if a character
/// cannot be represented.
pub fn write_string(s: &str) -> (r: Option<Vec<u8>>)
    ensures
        r matches Some(v) ==> spec_wire_string(s@) == Some(v@) && v@.len() == 64,
        r is None <==> spec_wire_string(s@) is None,
{
    let mut v = match cp437_encode(s) {
        Some(v) => v,
        None => {
            return None;
        },
    };
    let ghost enc = v@;
    if v.len() > 64 {
        v.truncate(64);
        v.set(61, 0x2e);
        v.set(62, 0x2e);
        v.set(63, 0x2e);
        proof {
            assert(v@ =~= spec_pad64(enc));
        }
    } else {
        while v.len() < 64
            invariant
                enc.len() <= 64,
                enc.len() <= v@.len() <= 64,
                v@.subrange(0, enc.len() as int) == enc,
                forall|j: int| enc.len() <= j < v@.len() ==> v@[j] == 0x20u8,
            decreases 64 - v@.len(),
        {
            v.push(0x20);
            proof {
                assert(v@.subrange(0, enc.len() as int) =~= enc);
            }
        }
        proof {
            assert(v@ =~= spec_pad64(enc));
        }
    }
    let ghost padded = v@;
    let mut i: usize = 64;
    loop
        invariant
            v@ == padded,
            v@.len() == 64,
            0 <= i <= 64,
            forall|j: int| i <= j < 64 ==> padded[j] == 0x20u8,
        ensures
            v@ == padded,
            0 <= i <= 64,
            forall|j: int| i <= j < 64 ==> padded[j] == 0x20u8,
            i > 0 ==> padded[i - 1] != 0x20u8,
        decreases i,
    {
        if i == 0 {
            break;
        }
        if v[i - 1] != 0x20 {
            break;
        }
        i = i - 1;
    }
    if i > 0 {
        if v[i - 1] == 0x26 {
            v.set(i - 1, 0x25);
        }
        proof {
            lemma_amp_fix_skip(padded, i as int);
            assert(padded.subrange(0, i as int).last() == padded[i - 1]);
            assert(padded.subrange(0, i as int).drop_last() =~= padded.subrange(0, i - 1));
            if padded[i - 1] == 0x26u8 {
                assert(spec_amp_fix(padded.subrange(0, i as int)) =~= padded.subrange(
                    0,
                    i as int,
                ).update(i - 1, 0x25u8));
                assert(v@ =~= spec_amp_fix(padded.subrange(0, i as int)) + padded.subrange(
                    i as int,
                    64,
                ));
            } else {
                assert(spec_amp_fix(padded.subrange(0, i as int)) =~= padded.subrange(
                    0,
                    i as int,
                ));
                assert(v@ =~= spec_amp_fix(padded.subrange(0, i as int)) + padded.subrange(
                    i as int,
                    64,
                ));
            }
        }
    } else {
        proof {
            lemma_amp_fix_skip(padded, 0);
            assert(padded.subrange(0, 0) =~= Seq::<u8>::empty());
            assert(spec_amp_fix(Seq::<u8>::empty()) =~= Seq::<u8>::empty());
            assert(v@ =~= spec_amp_fix(padded));
        }
    }
    Some(v)
}

/// Decode a 64-byte string field.
pub fn read_string(b: &Vec<u8>) -> (r: String)
    requires
        b@.len() == 64,
    ensures
        r@ == spec_read_string(b@),
{
    let mut i: usize = 64;
    loop
        invariant
            b@.len() == 64,
            0 <= i <= 64,
            forall|j: int| i <= j < 64 ==> b@[j] == 0x20u8 || b@[j] == 0x00u8,
        ensures
            b@.len() == 64,
            0 <= i <= 64,
            forall|j: int| i <= j < 64 ==> b@[j] == 0x20u8 || b@[j] == 0x00u8,
            i > 0 ==> !(b@[i - 1] == 0x20u8 || b@[i - 1] == 0x00u8),
        decreases i,
    {
        if i == 0 {
            break;
        }
        let c = b[i - 1];
        if c != 0x20 && c != 0x00 {
            break;
        }
        i = i - 1;
    }
    let length: usize = i;
    proof {
        lemma_trim_right_skip(b@, length as int);
        if length == 0 {
            assert(b@.subrange(0, 0) =~= Seq::<u8>::empty());
        } else {
            assert(b@.subrange(0, length as int).last() == b@[length - 1]);
            assert(spec_trim_right(b@.subrange(0, length as int)) == b@.subrange(
                0,
                length as int,
            ));
        }
    }
    let mut out: Vec<u8> = Vec::new();
    let mut k: usize = 0;
    while k < length
        invariant
            b@.len() == 64,
            length <= 64,
            0 <= k <= length,
            out@ == b@.subrange(0, k as int),
        decreases length - k,
    {
        out.push(b[k]);
        proof {
            assert(out@ =~= b@.subrange(0, k + 1));
        }
        k = k + 1;
    }
    proof {
        assert(out@ =~= spec_trim_right(b@));
    }
    cp437_decode(out)
}

/// The payload size that follows each opcode on the wire.
pub open spec fn spec_payload_len(op: u8) -> int {
    match op {
        0x00u8 => 130,
        0x01u8 => 0,
        0x02u8 => 0,
        0x03u8 => 1027,
        0x04u8 => 6,
        0x05u8 => 8,
        0x06u8 => 7,
        0x07u8 => 73,
        0x08u8 => 9,
        0x09u8 => 6,
        0x0au8 => 4,
        0x0bu8 => 3,
        0x0cu8 => 1,
        0x0du8 => 65,
        0x0eu8 => 64,
        0x0fu8 => 1,
        _ => 0,
    }
}

pub fn payload_len(op: u8) -> (r: usize)
    ensures
        r == spec_payload_len(op),
{
    match op {
        0x00u8 => 130,
        0x01u8 => 0,
        0x02u8 => 0,
        0x03u8 => 1027,
        0x04u8 => 6,
        0x05u8 => 8,
        0x06u8 => 7,
        0x07u8 => 73,
        0x08u8 => 9,
        0x09u8 => 6,
        0x0au8 => 4,
        0x0bu8 => 3,
        0x0cu8 => 1,
        0x0du8 => 65,
        0x0eu8 => 64,
        0x0fu8 => 1,
        _ => 0,
    }
}

/// The packet read from one opcode byte and its exact payload.
pub open spec fn spec_decode_packet(b: Seq<u8>) -> PacketV {
    match b[0] {
        0x00u8 => PacketV::Identification {
            protocol: b[1],
            name: spec_read_string(b.subrange(2, 66)),
            data: spec_read_string(b.subrange(66, 130)),
            user_mode: b[130],
        },
        0x01u8 => PacketV::Ping,
        0x02u8 => PacketV::LevelStart,
        0x03u8 => PacketV::LevelData {
            length: spec_i16_from_be(b[1], b[2]),
            data: b.subrange(3, 1027),
            percentage: b[1027],
        },
        0x04u8 => PacketV::LevelSize {
            x: spec_i16_from_be(b[1], b[2]),
            y: spec_i16_from_be(b[3], b[4]),
            z: spec_i16_from_be(b[5], b[6]),
        },
        0x05u8 => PacketV::PlaceBlock {
            x: spec_i16_from_be(b[1], b[2]),
            y: spec_i16_from_be(b[3], b[4]),
            z: spec_i16_from_be(b[5], b[6]),
            mode: b[7],
            block: b[8],
        },
        0x06u8 => PacketV::SetBlock {
            x: spec_i16_from_be(b[1], b[2]),
            y: spec_i16_from_be(b[3], b[4]),
            z: spec_i16_from_be(b[5], b[6]),
            block: b[7],
        },
        0x07u8 => PacketV::Spawn {
            id: b[1] as i8,
            name: spec_read_string(b.subrange(2, 66)),
            x: spec_i16_from_be(b[66], b[67]),
            y: spec_i16_from_be(b[68], b[69]),
            z: spec_i16_from_be(b[70], b[71]),
            yaw: b[72],
            pitch: b[73],
        },
        0x08u8 => PacketV::SetPosAndLook {
            id: b[1] as i8,
            x: spec_i16_from_be(b[2], b[3]),
            y: spec_i16_from_be(b[4], b[5]),
            z: spec_i16_from_be(b[6], b[7]),
            yaw: b[8],
            pitch: b[9],
        },
        0x09u8 => PacketV::UpdatePosAndLook {
            id: b[1] as i8,
            x: b[2] as i8,
            y: b[3] as i8,
            z: b[4] as i8,
            yaw: b[5],
            pitch: b[6],
        },
        0x0au8 => PacketV::UpdatePos { id: b[1] as i8, x: b[2] as i8, y: b[3] as i8, z: b[4] as i8 },
        0x0bu8 => PacketV::UpdateLook { id: b[1] as i8, yaw: b[2], pitch: b[3] },
        0x0cu8 => PacketV::Despawn { id: b[1] as i8 },
        0x0du8 => PacketV::Message { id: b[1] as i8, message: spec_read_string(b.subrange(2, 66)) },
        0x0eu8 => PacketV::Disconnect { reason: spec_read_string(b.subrange(1, 65)) },
        0x0fu8 => PacketV::UpdateUserMode { user_mode: b[1] },
        _ => PacketV::Unknown { id: b[0] },
    }
}

/// Copy one range of a byte vector.
fn copy_range(b: &Vec<u8>, from: usize, to: usize) -> (r: Vec<u8>)
    requires
        from <= to <= b@.len(),
    ensures
        r@ == b@.subrange(from as int, to as int),
{
    let mut r: Vec<u8> = Vec::new();
    let mut k = from;
    while k < to
        invariant
            from <= k <= to <= b@.len(),
            r@ == b@.subrange(from as int, k as int),
        decreases to - k,
    {
        r.push(b[k]);
        proof {
            assert(r@ =~= b@.subrange(from as int, k + 1));
        }
        k = k + 1;
    }
    r
}

/// Decode one framed packet: the opcode byte followed by its payload.
pub fn decode_packet(b: &Vec<u8>) -> (r: Packet)
    requires
        b@.len() >= 1,
        b@.len() == 1 + spec_payload_len(b@[0]),
    ensures
        r@ == spec_decode_packet(b@),
{
    let op = b[0];
    match op {
        0x00u8 => {
            let name_b = copy_range(b, 2, 66);
            let data_b = copy_range(b, 66, 130);
            Packet::Identification {
                protocol: b[1],
                name: read_string(&name_b),
                data: read_string(&data_b),
                user_mode: b[130],
            }
        },
        0x01u8 => Packet::Ping,
        0x02u8 => Packet::LevelStart,
        0x03u8 => {
            let data = copy_range(b, 3, 1027);
            Packet::LevelData {
                length: i16_from_be(b[1], b[2]),
                data,
                percentage: b[1027],
            }
        },
        0x04u8 => Packet::LevelSize {
            x: i16_from_be(b[1], b[2]),
            y: i16_from_be(b[3], b[4]),
            z: i16_from_be(b[5], b[6]),
        },
        0x05u8 => Packet::PlaceBlock {
            x: i16_from_be(b[1], b[2]),
            y: i16_from_be(b[3], b[4]),
            z: i16_from_be(b[5], b[6]),
            mode: b[7],
            block: b[8],
        },
        0x06u8 => Packet::SetBlock {
            x: i16_from_be(b[1], b[2]),
            y: i16_from_be(b[3], b[4]),
            z: i16_from_be(b[5], b[6]),
            block: b[7],
        },
        0x07u8 => {
            let name_b = copy_range(b, 2, 66);
            Packet::Spawn {
                id: b[1] as i8,
                name: read_string(&name_b),
                x: i16_from_be(b[66], b[67]),
                y: i16_from_be(b[68], b[69]),
                z: i16_from_be(b[70], b[71]),
                yaw: b[72],
                pitch: b[73],
            }
        },
        0x08u8 => Packet::SetPosAndLook {
            id: b[1] as i8,
            x: i16_from_be(b[2], b[3]),
            y: i16_from_be(b[4], b[5]),
            z: i16_from_be(b[6], b[7]),
            yaw: b[8],
            pitch: b[9],
        },
        0x09u8 => Packet::UpdatePosAndLook {
            id: b[1] as i8,
            x: b[2] as i8,
            y: b[3] as i8,
            z: b[4] as i8,
            yaw: b[5],
            pitch: b[6],
        },
        0x0au8 => Packet::UpdatePos {
            id: b[1] as i8,
            x: b[2] as i8,
            y: b[3] as i8,
            z: b[4] as i8,
        },
        0x0bu8 => Packet::UpdateLook { id: b[1] as i8, yaw: b[2], pitch: b[3] },
        0x0cu8 => Packet::Despawn { id: b[1] as i8 },
        0x0du8 => {
            let msg_b = copy_range(b, 2, 66);
            Packet::Message { id: b[1] as i8, message: read_string(&msg_b) }
        },
        0x0eu8 => {
            let r_b = copy_range(b, 1, 65);
            Packet::Disconnect { reason: read_string(&r_b) }
        },
        0x0fu8 => Packet::UpdateUserMode { user_mode: b[1] },
        _ => Packet::Unknown { id: op },
    }
}

/// The wire bytes of a packet: the opcode, then its fixed payload.
/// An unknown packet, an unrepresentable string or an oversized level
/// chunk cannot be encoded.
pub open spec fn spec_encode_packet(p: PacketV) -> Option<Seq<u8>> {
    match p {
        PacketV::Unknown { .. } => None,
        PacketV::Identification { protocol, name, data, user_mode } => match (
            spec_wire_string(name),
            spec_wire_string(data),
        ) {
            (Some(w1), Some(w2)) => Some(seq![0x00u8, protocol] + w1 + w2 + seq![user_mode]),
            _ => None,
        },
        PacketV::Ping => Some(seq![0x01u8]),
        PacketV::LevelStart => Some(seq![0x02u8]),
        PacketV::LevelData { length, data, percentage } => if data.len() <= 1024 {
            Some(
                seq![0x03u8] + spec_be16(length) + data + Seq::new(
                    (1024 - data.len()) as nat,
                    |i: int| 0x00u8,
                ) + seq![percentage],
            )
        } else {
            None
        },
        PacketV::LevelSize { x, y, z } => Some(
            seq![0x04u8] + spec_be16(x) + spec_be16(y) + spec_be16(z),
        ),
        PacketV::PlaceBlock { x, y, z, mode, block } => Some(
            seq![0x05u8] + spec_be16(x) + spec_be16(y) + spec_be16(z) + seq![mode, block],
        ),
        PacketV::SetBlock { x, y, z, block } => Some(
            seq![0x06u8] + spec_be16(x) + spec_be16(y) + spec_be16(z) + seq![block],
        ),
        PacketV::Spawn { id, name, x, y, z, yaw, pitch } => match spec_wire_string(name) {
            Some(w) => Some(
                seq![0x07u8, id as u8] + w + spec_be16(x) + spec_be16(y) + spec_be16(z) + seq![
                    yaw,
                    pitch,
                ],
            ),
            None => None,
        },
        PacketV::SetPosAndLook { id, x, y, z, yaw, pitch } => Some(
            seq![0x08u8, id as u8] + spec_be16(x) + spec_be16(y) + spec_be16(z) + seq![yaw, pitch],
        ),
        PacketV::UpdatePosAndLook { id, x, y, z, yaw, pitch } => Some(
            seq![0x09u8, id as u8, x as u8, y as u8, z as u8, yaw, pitch],
        ),
        PacketV::UpdatePos { id, x, y, z } => Some(
            seq![0x0au8, id as u8, x as u8, y as u8, z as u8],
        ),
        PacketV::UpdateLook { id, yaw, pitch } => Some(seq![0x0bu8, id as u8, yaw, pitch]),
        PacketV::Despawn { id } => Some(seq![0x0cu8, id as u8]),
        PacketV::Message { id, message } => match spec_wire_string(message) {
            Some(w) => Some(seq![0x0du8, id as u8] + w),
            None => None,
        },
        PacketV::Disconnect { reason } => match spec_wire_string(reason) {
            Some(w) => Some(seq![0x0eu8] + w),
            None => None,
        },
        PacketV::UpdateUserMode { user_mode } => Some(seq![0x0fu8, user_mode]),
    }
}

fn push_be16(out: &mut Vec<u8>, v: i16)
    ensures
        final(out)@ == old(out)@ + spec_be16(v),
{
    let (a, b) = i16_to_be(v);
    out.push(a);
    out.push(b);
    proof {
        assert(final(out)@ =~= old(out)@ + spec_be16(v));
    }
}

fn push_all(out: &mut Vec<u8>, v: &Vec<u8>)
    ensures
        final(out)@ == old(out)@ + v@,
{
    let mut k: usize = 0;
    while k < v.len()
        invariant
            0 <= k <= v@.len(),
            out@ == old(out)@ + v@.subrange(0, k as int),
        decreases v@.len() - k,
    {
        out.push(v[k]);
        proof {
            assert(out@ =~= old(out)@ + v@.subrange(0, k + 1));
        }
        k = k + 1;
    }
    proof {
        assert(v@.subrange(0, v@.len() as int) =~= v@);
    }
}

/// Encode a packet for the wire. The result is absent exactly when the
/// packet has no wire form: an unknown opcode, a string with characters
/// outside Code Page 437, or level data over the 1024-byte chunk size.
pub fn encode_packet(p: &Packet) -> (r: Option<Vec<u8>>)
    ensures
        r matches Some(v) ==> spec_encode_packet(p@) == Some(v@),
        r is None <==> spec_encode_packet(p@) is None,
{
    let mut out: Vec<u8> = Vec::new();
    match p {
        Packet::Unknown { .. } => {
            return None;
        },
        Packet::Identification { protocol, name, data, user_mode } => {
            let w1 = match write_string(name.as_str()) {
                Some(w) => w,
                None => {
                    return None;
                },
            };
            let w2 = match write_string(data.as_str()) {
                Some(w) => w,
                None => {
                    return None;
                },
            };
            out.push(0x00);
            out.push(*protocol);
            push_all(&mut out, &w1);
            push_all(&mut out, &w2);
            out.push(*user_mode);
            proof {
                assert(out@ =~= seq![0x00u8, p@->Identification_protocol] + w1@ + w2@ + seq![
                    p@->Identification_user_mode,
                ]);
            }
        },
        Packet::Ping => {
            out.push(0x01);
            proof {
                assert(out@ =~= seq![0x01u8]);
            }
        },
        Packet::LevelStart => {
            out.push(0x02);
            proof {
                assert(out@ =~= seq![0x02u8]);
            }
        },
        Packet::LevelData { length, data, percentage } => {
            if data.len() > 1024 {
                return None;
            }
            out.push(0x03);
            push_be16(&mut out, *length);
            push_all(&mut out, data);
            let ghost before_pad = out@;
            let pad = 1024 - data.len();
            let mut k: usize = 0;
            while k < pad
                invariant
                    0 <= k <= pad,
                    out@ == before_pad + Seq::new(k as nat, |i: int| 0x00u8),
                decreases pad - k,
            {
                out.push(0x00);
                proof {
                    assert(out@ =~= before_pad + Seq::new((k + 1) as nat, |i: int| 0x00u8));
                }
                k = k + 1;
            }
            out.push(*percentage);
            proof {
                assert(out@ =~= seq![0x03u8] + spec_be16(p@->LevelData_length)
                    + p@->LevelData_data + Seq::new(
                    (1024 - p@->LevelData_data.len()) as nat,
                    |i: int| 0x00u8,
                ) + seq![p@->LevelData_percentage]);
            }
        },
        Packet::LevelSize { x, y, z } => {
            out.push(0x04);
            push_be16(&mut out, *x);
            push_be16(&mut out, *y);
            push_be16(&mut out, *z);
            proof {
                assert(out@ =~= seq![0x04u8] + spec_be16(p@->LevelSize_x) + spec_be16(
                    p@->LevelSize_y,
                ) + spec_be16(p@->LevelSize_z));
            }
        },
        Packet::PlaceBlock { x, y, z, mode, block } => {
            out.push(0x05);
            push_be16(&mut out, *x);
            push_be16(&mut out, *y);
            push_be16(&mut out, *z);
            out.push(*mode);
            out.push(*block);
            proof {
                assert(out@ =~= seq![0x05u8] + spec_be16(p@->PlaceBlock_x) + spec_be16(
                    p@->PlaceBlock_y,
                ) + spec_be16(p@->PlaceBlock_z) + seq![p@->PlaceBlock_mode, p@->PlaceBlock_block]);
            }
        },
        Packet::SetBlock { x, y, z, block } => {
            out.push(0x06);
            push_be16(&mut out, *x);
            push_be16(&mut out, *y);
            push_be16(&mut out, *z);
            out.push(*block);
            proof {
                assert(out@ =~= seq![0x06u8] + spec_be16(p@->SetBlock_x) + spec_be16(
                    p@->SetBlock_y,
                ) + spec_be16(p@->SetBlock_z) + seq![p@->SetBlock_block]);
            }
        },
        Packet::Spawn { id, name, x, y, z, yaw, pitch } => {
            let w = match write_string(name.as_str()) {
                Some(w) => w,
                None => {
                    return None;
                },
            };
            out.push(0x07);
            out.push(*id as u8);
            push_all(&mut out, &w);
            push_be16(&mut out, *x);
            push_be16(&mut out, *y);
            push_be16(&mut out, *z);
            out.push(*yaw);
            out.push(*pitch);
            proof {
                assert(out@ =~= seq![0x07u8, p@->Spawn_id as u8] + w@ + spec_be16(p@->Spawn_x)
                    + spec_be16(p@->Spawn_y) + spec_be16(p@->Spawn_z) + seq![
                    p@->Spawn_yaw,
                    p@->Spawn_pitch,
                ]);
            }
        },
        Packet::SetPosAndLook { id, x, y, z, yaw, pitch } => {
            out.push(0x08);
            out.push(*id as u8);
            push_be16(&mut out, *x);
            push_be16(&mut out, *y);
            push_be16(&mut out, *z);
            out.push(*yaw);
            out.push(*pitch);
            proof {
                assert(out@ =~= seq![0x08u8, p@->SetPosAndLook_id as u8] + spec_be16(
                    p@->SetPosAndLook_x,
                ) + spec_be16(p@->SetPosAndLook_y) + spec_be16(p@->SetPosAndLook_z) + seq![
                    p@->SetPosAndLook_yaw,
                    p@->SetPosAndLook_pitch,
                ]);
            }
        },
        Packet::UpdatePosAndLook { id, x, y, z, yaw, pitch } => {
            out.push(0x09);
            out.push(*id as u8);
            out.push(*x as u8);
            out.push(*y as u8);
            out.push(*z as u8);
            out.push(*yaw);
            out.push(*pitch);
            proof {
                assert(out@ =~= seq![
                    0x09u8,
                    p@->UpdatePosAndLook_id as u8,
                    p@->UpdatePosAndLook_x as u8,
                    p@->UpdatePosAndLook_y as u8,
                    p@->UpdatePosAndLook_z as u8,
                    p@->UpdatePosAndLook_yaw,
                    p@->UpdatePosAndLook_pitch,
                ]);
            }
        },
        Packet::UpdatePos { id, x, y, z } => {
            out.push(0x0a);
            out.push(*id as u8);
            out.push(*x as u8);
            out.push(*y as u8);
            out.push(*z as u8);
            proof {
                assert(out@ =~= seq![
                    0x0au8,
                    p@->UpdatePos_id as u8,
                    p@->UpdatePos_x as u8,
                    p@->UpdatePos_y as u8,
                    p@->UpdatePos_z as u8,
                ]);
            }
        },
        Packet::UpdateLook { id, yaw, pitch } => {
            out.push(0x0b);
            out.push(*id as u8);
            out.push(*yaw);
            out.push(*pitch);
            proof {
                assert(out@ =~= seq![
                    0x0bu8,
                    p@->UpdateLook_id as u8,
                    p@->UpdateLook_yaw,
                    p@->UpdateLook_pitch,
                ]);
            }
        },
        Packet::Despawn { id } => {
            out.push(0x0c);
            out.push(*id as u8);
            proof {
                assert(out@ =~= seq![0x0cu8, p@->Despawn_id as u8]);
            }
        },
        Packet::Message { id, message } => {
            let w = match write_string(message.as_str()) {
                Some(w) => w,
                None => {
                    return None;
                },
            };
            out.push(0x0d);
            out.push(*id as u8);
            push_all(&mut out, &w);
            proof {
                assert(out@ =~= seq![0x0du8, p@->Message_id as u8] + w@);
            }
        },
        Packet::Disconnect { reason } => {
            let w = match write_string(reason.as_str()) {
                Some(w) => w,
                None => {
                    return None;
                },
            };
            out.push(0x0e);
            push_all(&mut out, &w);
            proof {
                assert(out@ =~= seq![0x0eu8] + w@);
            }
        },
        Packet::UpdateUserMode { user_mode } => {
            out.push(0x0f);
            out.push(*user_mode);
            proof {
                assert(out@ =~= seq![0x0fu8, p@->UpdateUserMode_user_mode]);
            }
        },
    }
    Some(out)
}

proof fn lemma_amp_fix_len(b: Seq<u8>)
    ensures
        spec_amp_fix(b).len() == b.len(),
    decreases b.len(),
{
    if b.len() > 0 && b.last() == 0x20u8 {
        lemma_amp_fix_len(b.drop_last());
    }
}

/// The length of a string field on the wire is always 64 bytes.
pub proof fn lemma_wire_string_len(s: Seq<char>)
    requires
        spec_wire_string(s) is Some,
    ensures
        spec_wire_string(s)->0.len() == 64,
{
    let b = cp437_encode_of(s)->0;
    lemma_amp_fix_len(spec_pad64(b));
}

/// A packet read back from its own encoding: string fields have passed
/// through the 64-byte wire form, level data has been padded to the
/// chunk size, everything else is untouched.
pub open spec fn spec_normalize(p: PacketV) -> PacketV {
    match p {
        PacketV::Identification { protocol, name, data, user_mode } => PacketV::Identification {
            protocol,
            name: spec_read_string(spec_wire_string(name)->0),
            data: spec_read_string(spec_wire_string(data)->0),
            user_mode,
        },
        PacketV::LevelData { length, data, percentage } => PacketV::LevelData {
            length,
            data: data + Seq::new((1024 - data.len()) as nat, |i: int| 0x00u8),
            percentage,
        },
        PacketV::Spawn { id, name, x, y, z, yaw, pitch } => PacketV::Spawn {
            id,
            name: spec_read_string(spec_wire_string(name)->0),
            x,
            y,
            z,
            yaw,
            pitch,
        },
        PacketV::Message { id, message } => PacketV::Message {
            id,
            message: spec_read_string(spec_wire_string(message)->0),
        },
        PacketV::Disconnect { reason } => PacketV::Disconnect {
            reason: spec_read_string(spec_wire_string(reason)->0),
        },
        _ => p,
    }
}

proof fn lemma_i8_u8_round_trip(x: i8)
    ensures
        (x as u8) as i8 == x,
{
    assert((x as u8) as i8 == x) by (bit_vector);
}

/// Round trip: decoding an encoded packet yields the packet back, up to
/// the 64-byte string form and the 1024-byte chunk padding.
pub proof fn lemma_packet_round_trip(p: PacketV)
    requires
        spec_encode_packet(p) is Some,
    ensures
        spec_encode_packet(p)->0.len() == 1 + spec_payload_len(spec_encode_packet(p)->0[0]),
        spec_decode_packet(spec_encode_packet(p)->0) == spec_normalize(p),
{
    let b = spec_encode_packet(p)->0;
    match p {
        PacketV::Unknown { .. } => {},
        PacketV::Identification { protocol, name, data, user_mode } => {
            let w1 = spec_wire_string(name)->0;
            let w2 = spec_wire_string(data)->0;
            lemma_wire_string_len(name);
            lemma_wire_string_len(data);
            assert(b.len() == 131);
            assert(b[0] == 0x00u8);
            assert(b[1] == protocol);
            assert(b[130] == user_mode);
            assert(b.subrange(2, 66) =~= w1);
            assert(b.subrange(66, 130) =~= w2);
        },
        PacketV::Ping => {
            assert(b[0] == 0x01u8);
        },
        PacketV::LevelStart => {
            assert(b[0] == 0x02u8);
        },
        PacketV::LevelData { length, data, percentage } => {
            lemma_be16_round_trip(length);
            assert(b.len() == 1028);
            assert(b[0] == 0x03u8);
            assert(b[1] == spec_be16(length)[0]);
            assert(b[2] == spec_be16(length)[1]);
            assert(b[1027] == percentage);
            assert(b.subrange(3, 1027) =~= data + Seq::new(
                (1024 - data.len()) as nat,
                |i: int| 0x00u8,
            ));
        },
        PacketV::LevelSize { x, y, z } => {
            lemma_be16_round_trip(x);
            lemma_be16_round_trip(y);
            lemma_be16_round_trip(z);
            assert(b[0] == 0x04u8);
            assert(b[1] == spec_be16(x)[0] && b[2] == spec_be16(x)[1]);
            assert(b[3] == spec_be16(y)[0] && b[4] == spec_be16(y)[1]);
            assert(b[5] == spec_be16(z)[0] && b[6] == spec_be16(z)[1]);
        },
        PacketV::PlaceBlock { x, y, z, mode, block } => {
            lemma_be16_round_trip(x);
            lemma_be16_round_trip(y);
            lemma_be16_round_trip(z);
            assert(b[0] == 0x05u8);
            assert(b[1] == spec_be16(x)[0] && b[2] == spec_be16(x)[1]);
            assert(b[3] == spec_be16(y)[0] && b[4] == spec_be16(y)[1]);
            assert(b[5] == spec_be16(z)[0] && b[6] == spec_be16(z)[1]);
            assert(b[7] == mode && b[8] == block);
        },
        PacketV::SetBlock { x, y, z, block } => {
            lemma_be16_round_trip(x);
            lemma_be16_round_trip(y);
            lemma_be16_round_trip(z);
            assert(b[0] == 0x06u8);
            assert(b[1] == spec_be16(x)[0] && b[2] == spec_be16(x)[1]);
            assert(b[3] == spec_be16(y)[0] && b[4] == spec_be16(y)[1]);
            assert(b[5] == spec_be16(z)[0] && b[6] == spec_be16(z)[1]);
            assert(b[7] == block);
        },
        PacketV::Spawn { id, name, x, y, z, yaw, pitch } => {
            let w = spec_wire_string(name)->0;
            lemma_wire_string_len(name);
            lemma_i8_u8_round_trip(id);
            lemma_be16_round_trip(x);
            lemma_be16_round_trip(y);
            lemma_be16_round_trip(z);
            assert(b.len() == 74);
            assert(b[0] == 0x07u8);
            assert(b[1] == id as u8);
            assert(b.subrange(2, 66) =~= w);
            assert(b[66] == spec_be16(x)[0] && b[67] == spec_be16(x)[1]);
            assert(b[68] == spec_be16(y)[0] && b[69] == spec_be16(y)[1]);
            assert(b[70] == spec_be16(z)[0] && b[71] == spec_be16(z)[1]);
            assert(b[72] == yaw && b[73] == pitch);
        },
        PacketV::SetPosAndLook { id, x, y, z, yaw, pitch } => {
            lemma_i8_u8_round_trip(id);
            lemma_be16_round_trip(x);
            lemma_be16_round_trip(y);
            lemma_be16_round_trip(z);
            assert(b[0] == 0x08u8);
            assert(b[1] == id as u8);
            assert(b[2] == spec_be16(x)[0] && b[3] == spec_be16(x)[1]);
            assert(b[4] == spec_be16(y)[0] && b[5] == spec_be16(y)[1]);
            assert(b[6] == spec_be16(z)[0] && b[7] == spec_be16(z)[1]);
            assert(b[8] == yaw && b[9] == pitch);
        },
        PacketV::UpdatePosAndLook { id, x, y, z, yaw, pitch } => {
            lemma_i8_u8_round_trip(id);
            lemma_i8_u8_round_trip(x);
            lemma_i8_u8_round_trip(y);
            lemma_i8_u8_round_trip(z);
            assert(b[0] == 0x09u8);
        },
        PacketV::UpdatePos { id, x, y, z } => {
            lemma_i8_u8_round_trip(id);
            lemma_i8_u8_round_trip(x);
            lemma_i8_u8_round_trip(y);
            lemma_i8_u8_round_trip(z);
            assert(b[0] == 0x0au8);
        },
        PacketV::UpdateLook { id, yaw, pitch } => {
            lemma_i8_u8_round_trip(id);
            assert(b[0] == 0x0bu8);
        },
        PacketV::Despawn { id } => {
            lemma_i8_u8_round_trip(id);
            assert(b[0] == 0x0cu8);
        },
        PacketV::Message { id, message } => {
            let w = spec_wire_string(message)->0;
            lemma_wire_string_len(message);
            lemma_i8_u8_round_trip(id);
            assert(b.len() == 66);
            assert(b[0] == 0x0du8);
            assert(b[1] == id as u8);
            assert(b.subrange(2, 66) =~= w);
        },
        PacketV::Disconnect { reason } => {
            let w = spec_wire_string(reason)->0;
            lemma_wire_string_len(reason);
            assert(b.len() == 65);
            assert(b[0] == 0x0eu8);
            assert(b.subrange(1, 65) =~= w);
        },
        PacketV::UpdateUserMode { user_mode } => {
            assert(b[0] == 0x0fu8);
            assert(b[1] == user_mode);
        },
    }
}

} // verus!
