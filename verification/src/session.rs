//! The per-connection protocol decisions: the handshake verdict on a
//! fresh connection, the dispatch of inbound packets to the server, and
//! the packet train that streams the level to a joining client.

use vstd::prelude::*;
use vstd::string::StrSliceExecFns;
use vstd::string::StringExecFns;
use crate::client::ClientMode;
use crate::command::CommandAction;
use crate::packet::{Packet, PacketV};
use crate::server::{Server, sent_view, spec_message_deliveries, spec_private_deliveries, spec_wrap_post};
use crate::strutil::{chars_to_vec, chars_to_string, spec_join};
use crate::userdata::str_eq;

verus! {

/// The 32 lowercase hexadecimal digits of the MD5 digest of a text.
pub uninterp spec fn md5_hex_of(s: Seq<char>) -> Seq<char>;

/// Relies on md5's compute and the digest's LowerHex form: two lowercase
/// hexadecimal digits for each of the 16 digest bytes, a function of the
/// input alone.
#[verifier::external_body]
fn md5_hex(s: &str) -> (r: String)
    ensures
        r@ == md5_hex_of(s@),
        r@.len() == 32,
{
    format!("{:x}", md5::compute(s.as_bytes()))
}

/// What Unicode lower-casing maps a text to.
pub uninterp spec fn lower_of(s: Seq<char>) -> Seq<char>;

/// Relies on str::to_lowercase: the result depends on the characters
/// alone.
#[verifier::external_body]
fn lowercase(s: &str) -> (r: String)
    ensures
        r@ == lower_of(s@),
        s@.len() == 0 ==> r@.len() == 0,
{
    s.to_lowercase()
}

/// How the handshake on a fresh connection ends.
pub enum HandshakeOutcome {
    /// Close without a word: not an Identification, or the wrong
    /// protocol version.
    SilentClose,
    /// Send a Disconnect with this reason, then close.
    Deny { reason: String },
    /// Admit the player under this id and permission level.
    Accept { id: i8, mode: ClientMode },
}

impl Server {
    /// Judge a connection's opening packet. Nothing is sent for a wrong
    /// protocol; a ban, a failed verification, a full table or a double
    /// login each earn their Disconnect; otherwise the smallest free id
    /// is granted, with operator rights when the operator list names the
    /// player.
    pub fn handshake(&self, packet: &Packet, ip: &String) -> (r: HandshakeOutcome)
        requires
            self.inv(),
        ensures
            !(packet@ matches PacketV::Identification { .. }) ==> r is SilentClose,
            packet@ matches PacketV::Identification { protocol, name, data, .. } ==> {
                let banned = self.config.user_data.banned.spec_contains_ip(ip@)
                    || self.config.user_data.banned.spec_contains_username(name);
                let verified = !self.config.verify_players || data == md5_hex_of(
                    self.salt@ + name,
                );
                let full = forall|j: int| 0 <= j < self.cap() ==> self.clients@[j] is Some;
                let dup = exists|i: int|
                    0 <= i < self.clients@.len() && ((#[trigger] self.clients@[i]) matches Some(
                        c,
                    ) && c.username@ == name);
                &&& (protocol != 7 ==> r is SilentClose)
                &&& (protocol == 7 && banned ==> (r matches HandshakeOutcome::Deny { reason } && reason@
                    == "You are banned."@))
                &&& (protocol == 7 && !banned && !verified ==> (r matches HandshakeOutcome::Deny { reason }
                    && reason@ == "Could not verify. Try refreshing the server list."@))
                &&& (protocol == 7 && !banned && verified && full ==> (r matches HandshakeOutcome::Deny {
                    reason,
                } && reason@ == "Too many players."@))
                &&& (protocol == 7 && !banned && verified && !full && dup ==> (r matches HandshakeOutcome::Deny {
                    reason,
                } && reason@ == "Player already logged in."@))
                &&& (protocol == 7 && !banned && verified && !full && !dup ==> (r
                    matches HandshakeOutcome::Accept {
                    id,
                    mode,
                } && 0 <= id < self.cap() && self.clients@[id as int] is None && (forall|j: int|
                    0 <= j < id ==> self.clients@[j] is Some) && mode == (
                if self.config.user_data.ops.spec_contains_ip(ip@)
                    || self.config.user_data.ops.spec_contains_username(name) {
                    ClientMode::Operator
                } else {
                    ClientMode::Normal
                })))
            },
    {
        match packet {
            Packet::Identification { protocol, name, data, user_mode: _ } => {
                if *protocol != 7 {
                    return HandshakeOutcome::SilentClose;
                }
                if self.config.user_data.banned.contains(name, ip) {
                    return HandshakeOutcome::Deny {
                        reason: String::from_str("You are banned."),
                    };
                }
                if self.config.verify_players {
                    let mut salted = self.salt.clone();
                    salted.append(name.as_str());
                    let expected = md5_hex(salted.as_str());
                    if !str_eq(data.as_str(), expected.as_str()) {
                        return HandshakeOutcome::Deny {
                            reason: String::from_str(
                                "Could not verify. Try refreshing the server list.",
                            ),
                        };
                    }
                }
                let id = match self.first_free_space() {
                    Some(id) => id,
                    None => {
                        return HandshakeOutcome::Deny {
                            reason: String::from_str("Too many players."),
                        };
                    },
                };
                if self.get_index_from_username(name.as_str()).is_some() {
                    return HandshakeOutcome::Deny {
                        reason: String::from_str("Player already logged in."),
                    };
                }
                let mode = if self.config.user_data.ops.contains(name, ip) {
                    ClientMode::Operator
                } else {
                    ClientMode::Normal
                };
                HandshakeOutcome::Accept { id, mode }
            },
            _ => HandshakeOutcome::SilentClose,
        }
    }
}

/// Split on single spaces, keeping empty words, so that joining the
/// words back with spaces yields the text again.
pub fn split_spaces(s: &str) -> (r: Vec<String>)
    ensures
        r@.len() >= 1,
        forall|k: int, j: int|
            0 <= k < r@.len() && 0 <= j < r@[k]@.len() ==> #[trigger] r@[k]@[j] != ' ',
        spec_join(r@) == s@,
{
    let cs = chars_to_vec(s);
    let mut out: Vec<String> = Vec::new();
    let mut word: Vec<char> = Vec::new();
    let mut i: usize = 0;
    while i < cs.len()
        invariant
            cs@ == s@,
            0 <= i <= cs@.len(),
            forall|k: int, j: int|
                0 <= k < out@.len() && 0 <= j < out@[k]@.len() ==> #[trigger] out@[k]@[j]
                    != ' ',
            forall|j: int| 0 <= j < word@.len() ==> word@[j] != ' ',
            spec_join(out@) + (if out@.len() > 0 {
                seq![' ']
            } else {
                Seq::<char>::empty()
            }) + word@ == cs@.subrange(0, i as int),
        decreases cs@.len() - i,
    {
        let c = cs[i];
        if c == ' ' {
            let w = chars_to_string(&word);
            let ghost oldword = word@;
            let ghost preout = out@;
            out.push(w);
            word = Vec::new();
            proof {
                assert(out@.drop_last() =~= preout);
                assert(out@.last()@ == oldword);
                if preout.len() == 0 {
                    assert(spec_join(out@) == out@[0]@);
                }
                assert(cs@.subrange(0, i + 1) =~= cs@.subrange(0, i as int).push(' '));
                assert(spec_join(out@) + seq![' '] + Seq::<char>::empty() =~= cs@.subrange(
                    0,
                    i + 1,
                ));
            }
        } else {
            proof {
                assert(cs@.subrange(0, i + 1) =~= cs@.subrange(0, i as int).push(
                    cs@[i as int],
                ));
            }
            word.push(c);
            proof {
                assert(spec_join(out@) + (if out@.len() > 0 {
                    seq![' ']
                } else {
                    Seq::<char>::empty()
                }) + word@ =~= cs@.subrange(0, i + 1));
            }
        }
        i = i + 1;
    }
    let w = chars_to_string(&word);
    let ghost preout = out@;
    out.push(w);
    proof {
        assert(cs@.subrange(0, cs@.len() as int) =~= cs@);
        if preout.len() == 0 {
            assert(spec_join(out@) == out@[0]@);
            assert(spec_join(preout) + Seq::<char>::empty() + word@ =~= word@);
        } else {
            assert(out@.drop_last() =~= preout);
            assert(spec_join(out@) =~= spec_join(preout) + seq![' '] + word@);
        }
    }
    out
}

/// A non-space lead character of the joined words is the first word's
/// lead character.
proof fn lemma_join_first(words: Seq<String>, s: Seq<char>)
    requires
        words.len() >= 1,
        spec_join(words) == s,
        s.len() > 0,
        s[0] != ' ',
    ensures
        words[0]@.len() >= 1,
        words[0]@[0] == s[0],
    decreases words.len(),
{
    if words.len() == 1 {
    } else {
        let pre = spec_join(words.drop_last());
        if pre.len() == 0 {
            assert(s[0] == (pre + seq![' '] + words.last()@)[0]);
            assert(false);
        } else {
            assert(s[0] == pre[0]);
            assert(words.drop_last()[0] == words[0]);
            lemma_join_first(words.drop_last(), pre);
        }
    }
}

/// Dispatch one inbound packet to the server: a placement, a movement,
/// or a chat line that is either a slash command or a broadcast. Any
/// other kind is a protocol error and ends the session.
pub fn handle_packet(
    server: &mut Server,
    id: i8,
    username: &String,
    ip: &String,
    packet: Packet,
) -> (r: Option<CommandAction>)
    requires
        old(server).inv(),
    ensures
        final(server).inv(),
        r is None <==> !(packet@ matches PacketV::PlaceBlock { .. } || packet@
            matches PacketV::SetPosAndLook { .. } || packet@ matches PacketV::Message { .. }),
        packet@ matches PacketV::PlaceBlock { x, y, z, mode, block } ==> Server::spec_set_block_post(
            *old(server),
            *final(server),
            id,
            x,
            y,
            z,
            if mode == 0 {
                0u8
            } else {
                block
            },
            true,
        ) && r == Some(CommandAction::Done),
        packet@ matches PacketV::SetPosAndLook { id: pid, x, y, z, yaw, pitch }
            ==> Server::spec_move_player_post(
            *old(server),
            *final(server),
            id,
            id,
            x,
            y,
            z,
            yaw,
            pitch,
        ) && r == Some(CommandAction::Done),
        packet@ matches PacketV::Message { id: mid, message } ==> {
            let muted = old(server).config.user_data.muted.spec_contains_ip(ip@) || old(
                server,
            ).config.user_data.muted.spec_contains_username(username@);
            if message.len() > 0 && message[0] == '/' {
                exists|words: Seq<String>, act: CommandAction|
                    {
                        &&& words.len() >= 1
                        &&& spec_join(words) == message
                        &&& words[0]@.len() >= 1
                        &&& #[trigger] Server::spec_command_post(
                            *old(server),
                            *final(server),
                            act,
                            id,
                            lower_of(words[0]@.subrange(1, words[0]@.len() as int)),
                            words.drop_first(),
                        )
                        &&& r == Some(act)
                    }
            } else {
                &&& final(server).clients == old(server).clients
                &&& final(server).client_count == old(server).client_count
                &&& final(server).level == old(server).level
                &&& final(server).config == old(server).config
                &&& r == Some(CommandAction::Done)
                &&& (muted ==> exists|lines: Seq<String>|
                    spec_wrap_post(
                        "You have been muted, you cannot send any messages."@,
                        lines,
                    ) && sent_view(final(server).outbox@) == sent_view(old(server).outbox@)
                        + #[trigger] spec_private_deliveries(
                        old(server).clients@,
                        id,
                        -1i8,
                        lines,
                    ))
                &&& (!muted ==> exists|lines: Seq<String>|
                    (("<"@ + username@ + "> "@ + message).len() < 0x1000_0000
                        ==> spec_wrap_post("<"@ + username@ + "> "@ + message, lines))
                        && sent_view(final(server).outbox@) == sent_view(old(server).outbox@)
                        + #[trigger] spec_message_deliveries(
                        old(server).clients@,
                        id,
                        id,
                        lines,
                        old(server).clients@.len() as int,
                    ))
            }
        },
{
    match packet {
        Packet::PlaceBlock { x, y, z, mode, block } => {
            server.set_block(id, x, y, z, if mode == 0 { 0 } else { block }, true);
            Some(CommandAction::Done)
        },
        Packet::SetPosAndLook { id: _, x, y, z, yaw, pitch } => {
            server.move_player(id, id, x, y, z, yaw, pitch);
            Some(CommandAction::Done)
        },
        Packet::Message { id: _, message } => {
            let n = message.as_str().unicode_len();
            if n > 0 && message.as_str().get_char(0) == '/' {
                let words = split_spaces(message.as_str());
                proof {
                    lemma_join_first(words@, message@);
                }
                let head = words[0].clone();
                let hn = head.as_str().unicode_len();
                let cmd_part = if hn >= 1 {
                    head.as_str().substring_char(1, hn)
                } else {
                    ""
                };
                let cmd = lowercase(cmd_part);
                let mut args: Vec<String> = Vec::new();
                let mut k: usize = 1;
                while k < words.len()
                    invariant
                        1 <= k <= words@.len(),
                        args@ == words@.subrange(1, k as int),
                    decreases words@.len() - k,
                {
                    args.push(words[k].clone());
                    proof {
                        assert(args@ =~= words@.subrange(1, k + 1));
                    }
                    k = k + 1;
                }
                proof {
                    assert(args@ =~= words@.drop_first());
                    assert(cmd@ == lower_of(words@[0]@.subrange(1, words@[0]@.len() as int)));
                }
                let act = server.command(id, cmd, args);
                Some(act)
            } else if {
                let muted = server.config.user_data.muted.contains(username, ip);
                muted
            } {
                proof {
                    reveal_strlit("You have been muted, you cannot send any messages.");
                }
                server.send_message_checked(
                    -1,
                    id,
                    "You have been muted, you cannot send any messages.",
                );
                Some(CommandAction::Done)
            } else {
                let mut m = String::from_str("<");
                m.append(username.as_str());
                m.append("> ");
                m.append(message.as_str());
                let ghost msgline = m@;
                let ghost pre = sent_view(server.outbox@);
                let ghost n0 = server.clients@.len() as int;
                server.broadcast_message_checked(id, m.as_str());
                proof {
                    if msgline.len() >= 0x1000_0000 {
                        assert(sent_view(server.outbox@) =~= pre + spec_message_deliveries(
                            old(server).clients@,
                            id,
                            id,
                            Seq::<String>::empty(),
                            n0,
                        ));
                    }
                }
                Some(CommandAction::Done)
            }
        },
        _ => None,
    }
}

/// The packet train that carries the level to a joining client: the
/// gzip body in 1024-byte chunks with a running percentage, then the
/// level's dimensions.
pub fn level_transfer_packets(gzip: &Vec<u8>, sx: i16, sy: i16, sz: i16) -> (r: Vec<Packet>)
    requires
        gzip@.len() <= 0x4000_0000,
    ensures
        r@.len() >= 1,
        r@[r@.len() - 1]@ == (PacketV::LevelSize { x: sx, y: sy, z: sz }),
        forall|k: int|
            0 <= k < r@.len() - 1 ==> ((#[trigger] r@[k])@ matches PacketV::LevelData {
                length,
                data,
                percentage,
            } && data == gzip@.subrange(
                k * 1024,
                if (k + 1) * 1024 <= gzip@.len() {
                    (k + 1) * 1024
                } else {
                    gzip@.len() as int
                },
            ) && length == data.len() && percentage == (k + 1) * 100 / (r@.len() - 1)),
        (r@.len() - 1) * 1024 >= gzip@.len(),
        forall|k: int| 0 <= k < r@.len() - 1 ==> #[trigger] (k * 1024) < gzip@.len(),
{
    let n = gzip.len();
    let total_chunks = (n + 1023) / 1024;
    let mut r: Vec<Packet> = Vec::new();
    let mut k: usize = 0;
    while k < total_chunks
        invariant
            n == gzip@.len(),
            n <= 0x4000_0000,
            total_chunks == (n + 1023) / 1024,
            0 <= k <= total_chunks,
            r@.len() == k,
            forall|j: int|
                0 <= j < k ==> ((#[trigger] r@[j])@ matches PacketV::LevelData {
                    length,
                    data,
                    percentage,
                } && data == gzip@.subrange(
                    j * 1024,
                    if (j + 1) * 1024 <= n {
                        (j + 1) * 1024
                    } else {
                        n as int
                    },
                ) && length == data.len() && percentage == (j + 1) * 100 / (total_chunks as int)),
            forall|j: int| 0 <= j < k ==> #[trigger] (j * 1024) < n,
        decreases total_chunks - k,
    {
        let from = k * 1024;
        let to = if (k + 1) * 1024 <= n {
            (k + 1) * 1024
        } else {
            n
        };
        proof {
            assert(k < total_chunks ==> k * 1024 < n) by (nonlinear_arith)
                requires
                    k < total_chunks,
                    total_chunks == (n + 1023) / 1024,
                    n <= 0x4000_0000,
            ;
        }
        let mut chunk: Vec<u8> = Vec::new();
        let mut i = from;
        while i < to
            invariant
                from <= i <= to <= n,
                n == gzip@.len(),
                chunk@ == gzip@.subrange(from as int, i as int),
            decreases to - i,
        {
            chunk.push(gzip[i]);
            proof {
                assert(chunk@ =~= gzip@.subrange(from as int, i + 1));
            }
            i = i + 1;
        }
        let clen = chunk.len();
        let pct = ((k + 1) * 100 / total_chunks) as u8;
        proof {
            assert((k + 1) as int * 100 / total_chunks as int <= 100) by (nonlinear_arith)
                requires
                    0 <= k < total_chunks,
            ;
            assert(total_chunks as int <= 0x100001) by (nonlinear_arith)
                requires
                    total_chunks == ((n + 1023) / 1024) as int,
                    0 <= n <= 0x4000_0000,
            ;
            assert((k + 1) as int * 100 <= 0x7fff_ffff) by (nonlinear_arith)
                requires
                    0 <= (k as int) < total_chunks as int,
                    total_chunks as int <= 0x100001,
            ;
        }
        r.push(Packet::LevelData { length: clen as i16, data: chunk, percentage: pct });
        k = k + 1;
    }
    proof {
        assert(k * 1024 >= n) by (nonlinear_arith)
            requires
                k == (n + 1023) / 1024,
                0 <= n,
        ;
    }
    r.push(Packet::LevelSize { x: sx, y: sy, z: sz });
    r
}

} // verus!
