//! A connected player as the server sees one: address, name, position,
//! orientation and permission level.

use vstd::prelude::*;

verus! {

#[derive(Clone, Copy, PartialEq, Eq, Structural, Debug)]
pub enum ClientMode {
    Normal,
    Operator,
}

impl ClientMode {
    /// The wire byte of a permission level.
    pub fn get_id(&self) -> (r: u8)
        ensures
            r == (match self {
                ClientMode::Normal => 0x00u8,
                ClientMode::Operator => 0x64u8,
            }),
    {
        match self {
            ClientMode::Normal => 0x00,
            ClientMode::Operator => 0x64,
        }
    }
}

/// Per-client server state. Positions are 1/32-block fixed point in
/// 16 bits; yaw and pitch are 8-bit fractional turns.
pub struct Client {
    pub ip: String,
    pub username: String,
    pub x: i16,
    pub y: i16,
    pub z: i16,
    pub pitch: u8,
    pub yaw: u8,
    pub mode: ClientMode,
}

} // verus!
