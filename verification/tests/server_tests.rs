use chipscraft::client::ClientMode;
use chipscraft::command::CommandAction;
use chipscraft::config::Config;
use chipscraft::level::{Level, GenerationType};
use chipscraft::packet::Packet;
use chipscraft::server::Server;
use chipscraft::session::{handle_packet, HandshakeOutcome};

fn small_server(max_clients: i8) -> Server {
    let mut config = Config::with_defaults(0);
    config.max_clients = max_clients;
    let mut level = Level::new(String::from("world"));
    level.generate(16, 16, 16, GenerationType::Flat, 0).unwrap();
    Server::new(config, level)
}

#[test]
fn salt_is_sixteen_base62_characters() {
    let s = small_server(4);
    assert_eq!(s.salt.chars().count(), 16);
    for c in s.salt.chars() {
        assert!(c.is_ascii_alphanumeric());
    }
}

#[test]
fn client_count_tracks_the_table() {
    let mut s = small_server(4);
    assert_eq!(s.client_count, 0);
    s.spawn(0, String::from("10.0.0.1"), String::from("Alice"), ClientMode::Operator);
    s.spawn(1, String::from("10.0.0.2"), String::from("Bob"), ClientMode::Normal);
    assert_eq!(s.client_count, 2);
    assert_eq!(s.clients.iter().filter(|c| c.is_some()).count(), 2);
    s.disconnected(1);
    assert_eq!(s.client_count, 1);
    assert_eq!(s.clients.iter().filter(|c| c.is_some()).count(), 1);
    // removing an absent client is a no-op
    s.disconnected(1);
    assert_eq!(s.client_count, 1);
}

#[test]
fn first_free_space_is_the_smallest_hole() {
    let mut s = small_server(3);
    assert_eq!(s.first_free_space(), Some(0));
    s.spawn(0, String::from("ip0"), String::from("A"), ClientMode::Normal);
    assert_eq!(s.first_free_space(), Some(1));
    s.spawn(1, String::from("ip1"), String::from("B"), ClientMode::Normal);
    s.spawn(2, String::from("ip2"), String::from("C"), ClientMode::Normal);
    assert_eq!(s.first_free_space(), None);
    s.disconnected(1);
    assert_eq!(s.first_free_space(), Some(1));
}

#[test]
fn broadcast_suppressed_kinds_skip_the_origin() {
    let mut s = small_server(3);
    s.spawn(0, String::from("ip0"), String::from("A"), ClientMode::Normal);
    s.spawn(1, String::from("ip1"), String::from("B"), ClientMode::Normal);
    s.outbox.clear();
    s.broadcast_packet(0, Packet::Despawn { id: 0 });
    assert!(s.outbox.iter().all(|(cid, _)| *cid != 0));
    assert_eq!(s.outbox.len(), 1);
    assert_eq!(s.outbox[0], (1, Packet::Despawn { id: 0 }));
}

#[test]
fn broadcast_ordinary_kinds_reach_everyone_once() {
    let mut s = small_server(3);
    s.spawn(0, String::from("ip0"), String::from("A"), ClientMode::Normal);
    s.spawn(2, String::from("ip2"), String::from("C"), ClientMode::Normal);
    s.outbox.clear();
    s.broadcast_packet(0, Packet::Ping);
    assert_eq!(s.outbox, vec![(0, Packet::Ping), (2, Packet::Ping)]);
}

#[test]
fn send_packet_rewrites_the_self_id() {
    let mut s = small_server(3);
    s.spawn(1, String::from("ip1"), String::from("B"), ClientMode::Normal);
    s.outbox.clear();
    s.send_packet(1, Packet::Spawn {
        id: 1,
        name: String::from("B"),
        x: 5,
        y: 6,
        z: 7,
        yaw: 8,
        pitch: 9,
    })
        .unwrap();
    assert_eq!(s.outbox.len(), 1);
    match &s.outbox[0] {
        (1, Packet::Spawn { id, name, x, y, z, yaw, pitch }) => {
            assert_eq!(*id, -1);
            assert_eq!(name, "B");
            assert_eq!((*x, *y, *z, *yaw, *pitch), (5, 6, 7, 8, 9));
        },
        other => panic!("unexpected delivery {:?}", other),
    }
    // another client's id is left alone
    s.outbox.clear();
    s.send_packet(1, Packet::Despawn { id: 0 }).unwrap();
    assert_eq!(s.outbox[0], (1, Packet::Despawn { id: 0 }));
}

#[test]
fn movement_delta_and_overflow() {
    let mut s = small_server(3);
    s.spawn(0, String::from("ip0"), String::from("A"), ClientMode::Normal);
    s.spawn(1, String::from("ip1"), String::from("B"), ClientMode::Normal);
    let (yaw, pitch) = match &s.clients[0] {
        Some(c) => (c.yaw, c.pitch),
        None => unreachable!(),
    };
    // a small move between positions that fit the 8-bit delta form
    s.move_player(0, -1, 100, 50, 20, yaw, pitch);
    s.outbox.clear();
    s.move_player(0, -1, 100, 50, 23, yaw, pitch);
    let to_other: Vec<&Packet> =
        s.outbox.iter().filter(|(cid, _)| *cid == 1).map(|(_, p)| p).collect();
    assert_eq!(to_other, vec![&Packet::UpdatePos { id: 0, x: 0, y: 0, z: 3 }]);
    match &s.clients[0] {
        Some(c) => assert_eq!((c.x, c.y, c.z), (100, 50, 23)),
        None => unreachable!(),
    }
    // a jump whose delta cannot fit falls back to the absolute form
    s.outbox.clear();
    s.move_player(0, -1, 2000, 50, 23, yaw, pitch);
    let to_other: Vec<&Packet> =
        s.outbox.iter().filter(|(cid, _)| *cid == 1).map(|(_, p)| p).collect();
    assert_eq!(
        to_other,
        vec![&Packet::SetPosAndLook { id: 0, x: 2000, y: 50, z: 23, yaw, pitch }]
    );
    match &s.clients[0] {
        Some(c) => assert_eq!((c.x, c.y, c.z), (2000, 50, 23)),
        None => unreachable!(),
    }
}

#[test]
fn set_block_broadcasts_and_reverts() {
    let mut s = small_server(2);
    s.spawn(0, String::from("ip0"), String::from("A"), ClientMode::Normal);
    s.outbox.clear();
    // a normal player may place stone on the surface
    s.set_block(0, 5, 9, 5, 1, true);
    assert!(s.outbox.contains(&(0, Packet::SetBlock { x: 5, y: 9, z: 5, block: 1 })));
    assert_eq!(s.level.get_block(5, 9, 5), 1);
    // a normal player may not place lava; the client's optimism is reverted
    s.outbox.clear();
    s.set_block(0, 6, 9, 6, 10, true);
    assert_eq!(s.level.get_block(6, 9, 6), 0);
    assert_eq!(s.outbox, vec![(0, Packet::SetBlock { x: 6, y: 9, z: 6, block: 0 })]);
}

#[test]
fn handshake_rejects_the_wrong_protocol_silently() {
    let s = small_server(2);
    let packet = Packet::Identification {
        protocol: 6,
        name: String::from("a"),
        data: String::from(""),
        user_mode: 0,
    };
    match s.handshake(&packet, &String::from("10.0.0.9")) {
        HandshakeOutcome::SilentClose => {},
        _ => panic!("a wrong protocol version must be dropped without a reply"),
    }
}

#[test]
fn handshake_verifies_the_md5_key() {
    let mut s = small_server(2);
    s.config.verify_players = true;
    let salted = format!("{}{}", s.salt, "Alice");
    let good = format!("{:x}", md5::compute(salted.as_bytes()));
    let accept = Packet::Identification {
        protocol: 7,
        name: String::from("Alice"),
        data: good,
        user_mode: 0,
    };
    match s.handshake(&accept, &String::from("10.1.1.1")) {
        HandshakeOutcome::Accept { id, mode } => {
            assert_eq!(id, 0);
            assert_eq!(mode, ClientMode::Normal);
        },
        _ => panic!("a correct key must be accepted"),
    }
    let reject = Packet::Identification {
        protocol: 7,
        name: String::from("Alice"),
        data: String::from("0000"),
        user_mode: 0,
    };
    match s.handshake(&reject, &String::from("10.1.1.1")) {
        HandshakeOutcome::Deny { reason } => {
            assert_eq!(reason, "Could not verify. Try refreshing the server list.");
        },
        _ => panic!("a wrong key must be denied"),
    }
}

#[test]
fn handshake_denies_bans_fullness_and_double_logins() {
    let mut s = small_server(1);
    s.config.user_data.banned.add_username(String::from("Mallory"));
    let banned = Packet::Identification {
        protocol: 7,
        name: String::from("Mallory"),
        data: String::from(""),
        user_mode: 0,
    };
    match s.handshake(&banned, &String::from("ip")) {
        HandshakeOutcome::Deny { reason } => assert_eq!(reason, "You are banned."),
        _ => panic!("banned players are denied"),
    }
    s.spawn(0, String::from("ip0"), String::from("A"), ClientMode::Normal);
    let full = Packet::Identification {
        protocol: 7,
        name: String::from("B"),
        data: String::from(""),
        user_mode: 0,
    };
    match s.handshake(&full, &String::from("ip")) {
        HandshakeOutcome::Deny { reason } => assert_eq!(reason, "Too many players."),
        _ => panic!("a full server denies"),
    }
    let mut roomy = small_server(2);
    roomy.spawn(0, String::from("ip0"), String::from("A"), ClientMode::Normal);
    let dup = Packet::Identification {
        protocol: 7,
        name: String::from("A"),
        data: String::from(""),
        user_mode: 0,
    };
    match roomy.handshake(&dup, &String::from("ip")) {
        HandshakeOutcome::Deny { reason } => assert_eq!(reason, "Player already logged in."),
        _ => panic!("a double login denies"),
    }
}

#[test]
fn ban_command_kicks_and_records() {
    let mut s = small_server(3);
    s.spawn(0, String::from("10.0.0.1"), String::from("Op"), ClientMode::Operator);
    s.spawn(1, String::from("10.0.0.2"), String::from("Bob"), ClientMode::Normal);
    s.outbox.clear();
    let act = s.command(0, String::from("ban"), vec![String::from("Bob")]);
    assert!(matches!(act, CommandAction::Done));
    assert!(s.config.user_data.banned.contains_username(&String::from("Bob")));
    // Bob got the goodbye and was removed
    assert!(s.outbox.contains(&(1, Packet::Disconnect {
        reason: String::from("You have been banned."),
    })));
    assert!(s.clients[1].is_none());
    // the remaining player hears the announcement
    assert!(s.outbox.contains(&(0, Packet::Message {
        id: -1,
        message: String::from("Bob has been banned."),
    })));
}

#[test]
fn commands_respect_permissions() {
    let mut s = small_server(2);
    s.spawn(0, String::from("ip0"), String::from("Eve"), ClientMode::Normal);
    s.outbox.clear();
    let act = s.command(0, String::from("ban"), vec![String::from("Eve")]);
    assert!(matches!(act, CommandAction::Done));
    assert!(!s.config.user_data.banned.contains_username(&String::from("Eve")));
    assert!(s.outbox.contains(&(0, Packet::Message {
        id: -1,
        message: String::from("You do not have permission to use that command."),
    })));
}

#[test]
fn unknown_commands_are_reported() {
    let mut s = small_server(2);
    s.spawn(0, String::from("ip0"), String::from("A"), ClientMode::Normal);
    s.outbox.clear();
    s.command(0, String::from("fly"), vec![]);
    assert!(s.outbox.contains(&(0, Packet::Message {
        id: -1,
        message: String::from("Unknown command. See /help."),
    })));
}

#[test]
fn chat_lines_are_dispatched_and_slash_runs_commands() {
    let mut s = small_server(3);
    s.spawn(0, String::from("10.0.0.1"), String::from("Op"), ClientMode::Operator);
    s.spawn(1, String::from("10.0.0.2"), String::from("Bob"), ClientMode::Normal);
    s.outbox.clear();
    let name = String::from("Op");
    let ip = String::from("10.0.0.1");
    // ordinary chat is broadcast with the speaker's id
    let r = handle_packet(&mut s, 0, &name, &ip, Packet::Message {
        id: 0,
        message: String::from("hello"),
    });
    assert!(r.is_some());
    assert!(s.outbox.contains(&(1, Packet::Message {
        id: 0,
        message: String::from("<Op> hello"),
    })));
    // a slash command in upper case still resolves: the name is lowered
    s.outbox.clear();
    let r = handle_packet(&mut s, 0, &name, &ip, Packet::Message {
        id: 0,
        message: String::from("/BAN Bob"),
    });
    assert!(r.is_some());
    assert!(s.config.user_data.banned.contains_username(&String::from("Bob")));
    // an unexpected kind ends the session
    let r = handle_packet(&mut s, 0, &name, &ip, Packet::Ping);
    assert!(r.is_none());
}

#[test]
fn teleport_command_moves_the_player() {
    let mut s = small_server(2);
    s.spawn(0, String::from("ip0"), String::from("A"), ClientMode::Normal);
    s.command(0, String::from("tp"), vec![
        String::from("3"),
        String::from("4"),
        String::from("5"),
    ]);
    match &s.clients[0] {
        Some(c) => assert_eq!((c.x, c.y, c.z), (3 * 32 + 16, 4 * 32 + 61, 5 * 32 + 16)),
        None => unreachable!(),
    }
}

#[test]
fn kick_command_needs_a_present_player() {
    let mut s = small_server(2);
    s.spawn(0, String::from("ip0"), String::from("Op"), ClientMode::Operator);
    s.outbox.clear();
    s.command(0, String::from("kick"), vec![String::from("Ghost")]);
    assert!(s.outbox.contains(&(0, Packet::Message {
        id: -1,
        message: String::from("Ghost is not in the server."),
    })));
}
