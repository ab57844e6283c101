//! The server's configuration: its defaults, as plain values. Reading
//! and writing the configuration file is the caller's business.

use vstd::prelude::*;
use crate::level::GenerationType;
use crate::userdata::UserData;

verus! {

pub fn default_name() -> (r: String)
    ensures
        r@ == "Minecraft server"@,
{
    String::from_str("Minecraft server")
}

pub fn default_motd() -> (r: String)
    ensures
        r@ == "Have fun."@,
{
    String::from_str("Have fun.")
}

pub fn default_rules() -> (r: String)
    ensures
        r@ == "Be nice."@,
{
    String::from_str("Be nice.")
}

pub fn default_max_clients() -> (r: i8)
    ensures
        r == 20,
{
    20
}

pub fn default_address() -> (r: String)
    ensures
        r@ == "0.0.0.0:25565"@,
{
    String::from_str("0.0.0.0:25565")
}

pub fn default_level_name() -> (r: String)
    ensures
        r@ == "level"@,
{
    String::from_str("level")
}

pub fn default_level_size_x() -> (r: i16)
    ensures
        r == 128,
{
    128
}

pub fn default_level_size_y() -> (r: i16)
    ensures
        r == 64,
{
    64
}

pub fn default_level_size_z() -> (r: i16)
    ensures
        r == 128,
{
    128
}

pub fn default_level_type() -> (r: GenerationType)
    ensures
        r == GenerationType::Flat,
{
    GenerationType::Flat
}

pub fn default_heartbeat() -> (r: bool)
    ensures
        r == false,
{
    false
}

pub fn default_heartbeat_address() -> (r: String)
    ensures
        r@ == ""@,
{
    proof {
        reveal_strlit("");
    }
    let r = String::new();
    proof {
        assert(r@ =~= ""@);
    }
    r
}

pub fn default_verify_players() -> (r: bool)
    ensures
        r == false,
{
    false
}

pub fn default_public() -> (r: bool)
    ensures
        r == false,
{
    false
}

/// The server's settings. The address is kept as text; the seed falls to
/// the caller, who draws it from the clock when the file names none.
pub struct Config {
    pub name: String,
    pub motd: String,
    pub rules: String,
    pub max_clients: i8,
    pub address: String,
    pub level_name: String,
    pub level_size_x: i16,
    pub level_size_y: i16,
    pub level_size_z: i16,
    pub level_type: GenerationType,
    pub level_seed: u64,
    pub heartbeat: bool,
    pub heartbeat_address: String,
    pub verify_players: bool,
    pub public: bool,
    pub user_data: UserData,
}

impl Config {
    /// The defaults, with empty user lists and a given seed.
    pub fn with_defaults(level_seed: u64) -> (r: Config)
        ensures
            r.name@ == "Minecraft server"@,
            r.motd@ == "Have fun."@,
            r.rules@ == "Be nice."@,
            r.max_clients == 20,
            r.address@ == "0.0.0.0:25565"@,
            r.level_name@ == "level"@,
            r.level_size_x == 128,
            r.level_size_y == 64,
            r.level_size_z == 128,
            r.level_type == GenerationType::Flat,
            r.level_seed == level_seed,
            !r.heartbeat,
            r.heartbeat_address@ == ""@,
            !r.verify_players,
            !r.public,
            r.user_data.ops.usernames@.len() == 0 && r.user_data.ops.ips@.len() == 0,
            r.user_data.banned.usernames@.len() == 0 && r.user_data.banned.ips@.len() == 0,
            r.user_data.muted.usernames@.len() == 0 && r.user_data.muted.ips@.len() == 0,
            r.user_data.restricted.usernames@.len() == 0 && r.user_data.restricted.ips@.len()
                == 0,
    {
        Config {
            name: default_name(),
            motd: default_motd(),
            rules: default_rules(),
            max_clients: default_max_clients(),
            address: default_address(),
            level_name: default_level_name(),
            level_size_x: default_level_size_x(),
            level_size_y: default_level_size_y(),
            level_size_z: default_level_size_z(),
            level_type: default_level_type(),
            level_seed,
            heartbeat: default_heartbeat(),
            heartbeat_address: default_heartbeat_address(),
            verify_players: default_verify_players(),
            public: default_public(),
            user_data: UserData::new(),
        }
    }
}

} // verus!
