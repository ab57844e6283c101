//! The 17 wire packet kinds of the classic protocol, and the id rewriting
//! that the server applies when a packet travels back to the client it names.

use vstd::prelude::*;

verus! {

#[derive(Clone, Debug, PartialEq)]
pub enum Packet {
    Unknown { id: u8 },
    Identification { protocol: u8, name: String, data: String, user_mode: u8 },
    Ping,
    LevelStart,
    LevelData { length: i16, data: Vec<u8>, percentage: u8 },
    LevelSize { x: i16, y: i16, z: i16 },
    PlaceBlock { x: i16, y: i16, z: i16, mode: u8, block: u8 },
    SetBlock { x: i16, y: i16, z: i16, block: u8 },
    Spawn { id: i8, name: String, x: i16, y: i16, z: i16, yaw: u8, pitch: u8 },
    SetPosAndLook { id: i8, x: i16, y: i16, z: i16, yaw: u8, pitch: u8 },
    UpdatePosAndLook { id: i8, x: i8, y: i8, z: i8, yaw: u8, pitch: u8 },
    UpdatePos { id: i8, x: i8, y: i8, z: i8 },
    UpdateLook { id: i8, yaw: u8, pitch: u8 },
    Despawn { id: i8 },
    Message { id: i8, message: String },
    Disconnect { reason: String },
    UpdateUserMode { user_mode: u8 },
}

/// The mathematical value of a packet: strings are sequences of characters,
/// the level-data payload a sequence of bytes.
pub enum PacketV {
    Unknown { id: u8 },
    Identification { protocol: u8, name: Seq<char>, data: Seq<char>, user_mode: u8 },
    Ping,
    LevelStart,
    LevelData { length: i16, data: Seq<u8>, percentage: u8 },
    LevelSize { x: i16, y: i16, z: i16 },
    PlaceBlock { x: i16, y: i16, z: i16, mode: u8, block: u8 },
    SetBlock { x: i16, y: i16, z: i16, block: u8 },
    Spawn { id: i8, name: Seq<char>, x: i16, y: i16, z: i16, yaw: u8, pitch: u8 },
    SetPosAndLook { id: i8, x: i16, y: i16, z: i16, yaw: u8, pitch: u8 },
    UpdatePosAndLook { id: i8, x: i8, y: i8, z: i8, yaw: u8, pitch: u8 },
    UpdatePos { id: i8, x: i8, y: i8, z: i8 },
    UpdateLook { id: i8, yaw: u8, pitch: u8 },
    Despawn { id: i8 },
    Message { id: i8, message: Seq<char> },
    Disconnect { reason: Seq<char> },
    UpdateUserMode { user_mode: u8 },
}

impl View for Packet {
    type V = PacketV;

    open spec fn view(&self) -> PacketV {
        match self {
            Packet::Unknown { id } => PacketV::Unknown { id: *id },
            Packet::Identification { protocol, name, data, user_mode } => PacketV::Identification {
                protocol: *protocol, name: name@, data: data@, user_mode: *user_mode,
            },
            Packet::Ping => PacketV::Ping,
            Packet::LevelStart => PacketV::LevelStart,
            Packet::LevelData { length, data, percentage } => PacketV::LevelData {
                length: *length, data: data@, percentage: *percentage,
            },
            Packet::LevelSize { x, y, z } => PacketV::LevelSize { x: *x, y: *y, z: *z },
            Packet::PlaceBlock { x, y, z, mode, block } => PacketV::PlaceBlock {
                x: *x, y: *y, z: *z, mode: *mode, block: *block,
            },
            Packet::SetBlock { x, y, z, block } => PacketV::SetBlock {
                x: *x, y: *y, z: *z, block: *block,
            },
            Packet::Spawn { id, name, x, y, z, yaw, pitch } => PacketV::Spawn {
                id: *id, name: name@, x: *x, y: *y, z: *z, yaw: *yaw, pitch: *pitch,
            },
            Packet::SetPosAndLook { id, x, y, z, yaw, pitch } => PacketV::SetPosAndLook {
                id: *id, x: *x, y: *y, z: *z, yaw: *yaw, pitch: *pitch,
            },
            Packet::UpdatePosAndLook { id, x, y, z, yaw, pitch } => PacketV::UpdatePosAndLook {
                id: *id, x: *x, y: *y, z: *z, yaw: *yaw, pitch: *pitch,
            },
            Packet::UpdatePos { id, x, y, z } => PacketV::UpdatePos {
                id: *id, x: *x, y: *y, z: *z,
            },
            Packet::UpdateLook { id, yaw, pitch } => PacketV::UpdateLook {
                id: *id, yaw: *yaw, pitch: *pitch,
            },
            Packet::Despawn { id } => PacketV::Despawn { id: *id },
            Packet::Message { id, message } => PacketV::Message { id: *id, message: message@ },
            Packet::Disconnect { reason } => PacketV::Disconnect { reason: reason@ },
            Packet::UpdateUserMode { user_mode } => PacketV::UpdateUserMode {
                user_mode: *user_mode,
            },
        }
    }
}

/// The kinds a broadcast never echoes back to the client that caused them.
pub open spec fn spec_suppressed_for_origin(p: PacketV) -> bool {
    match p {
        PacketV::SetBlock { .. } => true,
        PacketV::SetPosAndLook { .. } => true,
        PacketV::UpdatePosAndLook { .. } => true,
        PacketV::UpdatePos { .. } => true,
        PacketV::UpdateLook { .. } => true,
        PacketV::Disconnect { .. } => true,
        PacketV::Despawn { .. } => true,
        _ => false,
    }
}

/// For the five movement and spawn kinds, an id equal to the receiver becomes
/// the protocol's self sentinel -1; every other field is kept as it is.
pub open spec fn spec_rewrite_for(cid: i8, p: PacketV) -> PacketV {
    match p {
        PacketV::Spawn { id, name, x, y, z, yaw, pitch } => PacketV::Spawn {
            id: if id == cid { -1i8 } else { id }, name, x, y, z, yaw, pitch,
        },
        PacketV::SetPosAndLook { id, x, y, z, yaw, pitch } => PacketV::SetPosAndLook {
            id: if id == cid { -1i8 } else { id }, x, y, z, yaw, pitch,
        },
        PacketV::UpdatePosAndLook { id, x, y, z, yaw, pitch } => PacketV::UpdatePosAndLook {
            id: if id == cid { -1i8 } else { id }, x, y, z, yaw, pitch,
        },
        PacketV::UpdatePos { id, x, y, z } => PacketV::UpdatePos {
            id: if id == cid { -1i8 } else { id }, x, y, z,
        },
        PacketV::UpdateLook { id, yaw, pitch } => PacketV::UpdateLook {
            id: if id == cid { -1i8 } else { id }, yaw, pitch,
        },
        _ => p,
    }
}

impl Packet {
    pub fn suppressed_for_origin(&self) -> (r: bool)
        ensures
            r == spec_suppressed_for_origin(self@),
    {
        match self {
            Packet::SetBlock { .. } => true,
            Packet::SetPosAndLook { .. } => true,
            Packet::UpdatePosAndLook { .. } => true,
            Packet::UpdatePos { .. } => true,
            Packet::UpdateLook { .. } => true,
            Packet::Disconnect { .. } => true,
            Packet::Despawn { .. } => true,
            _ => false,
        }
    }

    /// An exact copy of this packet.
    pub fn duplicate(&self) -> (r: Packet)
        ensures
            r@ == self@,
    {
        match self {
            Packet::Unknown { id } => Packet::Unknown { id: *id },
            Packet::Identification { protocol, name, data, user_mode } => Packet::Identification {
                protocol: *protocol,
                name: name.clone(),
                data: data.clone(),
                user_mode: *user_mode,
            },
            Packet::Ping => Packet::Ping,
            Packet::LevelStart => Packet::LevelStart,
            Packet::LevelData { length, data, percentage } => {
                let d = clone_bytes(data);
                Packet::LevelData { length: *length, data: d, percentage: *percentage }
            },
            Packet::LevelSize { x, y, z } => Packet::LevelSize { x: *x, y: *y, z: *z },
            Packet::PlaceBlock { x, y, z, mode, block } => Packet::PlaceBlock {
                x: *x, y: *y, z: *z, mode: *mode, block: *block,
            },
            Packet::SetBlock { x, y, z, block } => Packet::SetBlock {
                x: *x, y: *y, z: *z, block: *block,
            },
            Packet::Spawn { id, name, x, y, z, yaw, pitch } => Packet::Spawn {
                id: *id, name: name.clone(), x: *x, y: *y, z: *z, yaw: *yaw, pitch: *pitch,
            },
            Packet::SetPosAndLook { id, x, y, z, yaw, pitch } => Packet::SetPosAndLook {
                id: *id, x: *x, y: *y, z: *z, yaw: *yaw, pitch: *pitch,
            },
            Packet::UpdatePosAndLook { id, x, y, z, yaw, pitch } => Packet::UpdatePosAndLook {
                id: *id, x: *x, y: *y, z: *z, yaw: *yaw, pitch: *pitch,
            },
            Packet::UpdatePos { id, x, y, z } => Packet::UpdatePos {
                id: *id, x: *x, y: *y, z: *z,
            },
            Packet::UpdateLook { id, yaw, pitch } => Packet::UpdateLook {
                id: *id, yaw: *yaw, pitch: *pitch,
            },
            Packet::Despawn { id } => Packet::Despawn { id: *id },
            Packet::Message { id, message } => Packet::Message {
                id: *id, message: message.clone(),
            },
            Packet::Disconnect { reason } => Packet::Disconnect { reason: reason.clone() },
            Packet::UpdateUserMode { user_mode } => Packet::UpdateUserMode {
                user_mode: *user_mode,
            },
        }
    }

    /// The copy of this packet that is handed to client `cid`.
    pub fn rewrite_for(&self, cid: i8) -> (r: Packet)
        ensures
            r@ == spec_rewrite_for(cid, self@),
    {
        match self {
            Packet::Spawn { id, name, x, y, z, yaw, pitch } => Packet::Spawn {
                id: if *id == cid { -1 } else { *id },
                name: name.clone(),
                x: *x, y: *y, z: *z, yaw: *yaw, pitch: *pitch,
            },
            Packet::SetPosAndLook { id, x, y, z, yaw, pitch } => Packet::SetPosAndLook {
                id: if *id == cid { -1 } else { *id },
                x: *x, y: *y, z: *z, yaw: *yaw, pitch: *pitch,
            },
            Packet::UpdatePosAndLook { id, x, y, z, yaw, pitch } => Packet::UpdatePosAndLook {
                id: if *id == cid { -1 } else { *id },
                x: *x, y: *y, z: *z, yaw: *yaw, pitch: *pitch,
            },
            Packet::UpdatePos { id, x, y, z } => Packet::UpdatePos {
                id: if *id == cid { -1 } else { *id },
                x: *x, y: *y, z: *z,
            },
            Packet::UpdateLook { id, yaw, pitch } => Packet::UpdateLook {
                id: if *id == cid { -1 } else { *id },
                yaw: *yaw, pitch: *pitch,
            },
            _ => self.duplicate(),
        }
    }
}

/// An exact copy of a byte vector.
pub fn clone_bytes(v: &Vec<u8>) -> (r: Vec<u8>)
    ensures
        r@ == v@,
{
    let r = v.clone();
    proof {
        assert(r@ =~= v@);
    }
    r
}

} // verus!
