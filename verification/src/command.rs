//! The operator and user commands: their registry and their effects on
//! the server.

use vstd::prelude::*;
use vstd::string::StrSliceExecFns;
use vstd::string::StringExecFns;
use crate::client::ClientMode;
use crate::config::Config;
use crate::server::{Server, sent_view, spec_message_deliveries, spec_private_deliveries, spec_wrap_post};
use crate::strutil::{parse_i16, parse_u8, fmt_i16, join_spaces};

verus! {

/// Which effect a command runs.
#[derive(Clone, Copy, PartialEq, Eq, Structural, Debug)]
pub enum CommandKind {
    Help,
    Rules,
    Kick,
    Ban,
    BanIp,
    Unban,
    Mute,
    Unmute,
    Restrict,
    Unrestrict,
    Tp,
    Tpo,
    Save,
    Msg,
    ReloadConfig,
    Cuboid,
}

/// One named command: its help text, its access flags, and its effect.
#[derive(Clone, Copy)]
pub struct Command {
    pub name: &'static str,
    pub desc: &'static str,
    pub usage: &'static str,
    pub ops_only: bool,
    pub unmuted_only: bool,
    pub unrestricted_only: bool,
    pub kind: CommandKind,
}

/// The registry, ordered by registration.
pub struct CommandList {
    pub commands: Vec<Command>,
}

/// A list with every command of the given name removed.
pub open spec fn spec_remove_cmd(s: Seq<Command>, n: Seq<char>) -> Seq<Command>
    decreases s.len(),
{
    if s.len() == 0 {
        s
    } else if s[0].name@ == n {
        spec_remove_cmd(s.drop_first(), n)
    } else {
        seq![s[0]] + spec_remove_cmd(s.drop_first(), n)
    }
}

proof fn lemma_remove_cmd_snoc(s: Seq<Command>, x: Command, n: Seq<char>)
    ensures
        spec_remove_cmd(s.push(x), n) == spec_remove_cmd(s, n) + if x.name@ == n {
            Seq::<Command>::empty()
        } else {
            seq![x]
        },
    decreases s.len(),
{
    if s.len() == 0 {
        assert(s.push(x)[0] == x);
        assert(s.push(x).drop_first() =~= Seq::<Command>::empty());
        if x.name@ == n {
            assert(spec_remove_cmd(s, n) + Seq::<Command>::empty() =~= Seq::<Command>::empty());
        } else {
            assert(spec_remove_cmd(s, n) + seq![x] =~= seq![x]);
            assert(seq![x] + spec_remove_cmd(Seq::<Command>::empty(), n) =~= seq![x]);
        }
    } else {
        assert(s.push(x)[0] == s[0]);
        assert(s.push(x).drop_first() =~= s.drop_first().push(x));
        lemma_remove_cmd_snoc(s.drop_first(), x, n);
        if s[0].name@ != n {
            assert(seq![s[0]] + (spec_remove_cmd(s.drop_first(), n) + if x.name@ == n {
                Seq::<Command>::empty()
            } else {
                seq![x]
            }) =~= (seq![s[0]] + spec_remove_cmd(s.drop_first(), n)) + if x.name@ == n {
                Seq::<Command>::empty()
            } else {
                seq![x]
            });
        }
    }
}

/// The first registered command of the given name, from position `i`.
pub open spec fn spec_first_cmd_from(s: Seq<Command>, n: Seq<char>, i: int) -> Option<Command>
    decreases s.len() - i,
{
    if i < 0 || i >= s.len() {
        None
    } else if s[i].name@ == n {
        Some(s[i])
    } else {
        spec_first_cmd_from(s, n, i + 1)
    }
}

/// One registry entry's effect and access flags.
pub open spec fn spec_cmd_flags(
    c: Command,
    kind: CommandKind,
    ops: bool,
    unmuted: bool,
    unrestricted: bool,
) -> bool {
    c.kind == kind && c.ops_only == ops && c.unmuted_only == unmuted && c.unrestricted_only
        == unrestricted
}

/// The standard command set: the sixteen commands of the server, found
/// under their names with their effects and access flags.
pub open spec fn spec_standard_registry(cs: Seq<Command>) -> bool {
    &&& cs.len() == 16
    &&& (spec_first_cmd_from(cs, "help"@, 0) matches Some(c) && spec_cmd_flags(
        c,
        CommandKind::Help,
        false,
        false,
        false,
    ))
    &&& (spec_first_cmd_from(cs, "rules"@, 0) matches Some(c) && spec_cmd_flags(
        c,
        CommandKind::Rules,
        false,
        false,
        false,
    ))
    &&& (spec_first_cmd_from(cs, "kick"@, 0) matches Some(c) && spec_cmd_flags(
        c,
        CommandKind::Kick,
        true,
        false,
        false,
    ))
    &&& (spec_first_cmd_from(cs, "ban"@, 0) matches Some(c) && spec_cmd_flags(
        c,
        CommandKind::Ban,
        true,
        false,
        false,
    ))
    &&& (spec_first_cmd_from(cs, "banip"@, 0) matches Some(c) && spec_cmd_flags(
        c,
        CommandKind::BanIp,
        true,
        false,
        false,
    ))
    &&& (spec_first_cmd_from(cs, "unban"@, 0) matches Some(c) && spec_cmd_flags(
        c,
        CommandKind::Unban,
        true,
        false,
        false,
    ))
    &&& (spec_first_cmd_from(cs, "mute"@, 0) matches Some(c) && spec_cmd_flags(
        c,
        CommandKind::Mute,
        true,
        true,
        false,
    ))
    &&& (spec_first_cmd_from(cs, "unmute"@, 0) matches Some(c) && spec_cmd_flags(
        c,
        CommandKind::Unmute,
        true,
        true,
        false,
    ))
    &&& (spec_first_cmd_from(cs, "restrict"@, 0) matches Some(c) && spec_cmd_flags(
        c,
        CommandKind::Restrict,
        true,
        false,
        true,
    ))
    &&& (spec_first_cmd_from(cs, "unrestrict"@, 0) matches Some(c) && spec_cmd_flags(
        c,
        CommandKind::Unrestrict,
        true,
        false,
        true,
    ))
    &&& (spec_first_cmd_from(cs, "tp"@, 0) matches Some(c) && spec_cmd_flags(
        c,
        CommandKind::Tp,
        false,
        false,
        false,
    ))
    &&& (spec_first_cmd_from(cs, "tpo"@, 0) matches Some(c) && spec_cmd_flags(
        c,
        CommandKind::Tpo,
        true,
        false,
        false,
    ))
    &&& (spec_first_cmd_from(cs, "save"@, 0) matches Some(c) && spec_cmd_flags(
        c,
        CommandKind::Save,
        true,
        false,
        false,
    ))
    &&& (spec_first_cmd_from(cs, "msg"@, 0) matches Some(c) && spec_cmd_flags(
        c,
        CommandKind::Msg,
        false,
        true,
        false,
    ))
    &&& (spec_first_cmd_from(cs, "reload-config"@, 0) matches Some(c) && spec_cmd_flags(
        c,
        CommandKind::ReloadConfig,
        true,
        false,
        false,
    ))
    &&& (spec_first_cmd_from(cs, "cuboid"@, 0) matches Some(c) && spec_cmd_flags(
        c,
        CommandKind::Cuboid,
        true,
        false,
        true,
    ))
}

/// The commands a player may see: all of them for an operator, the
/// unprivileged ones otherwise.
pub open spec fn spec_visible(s: Seq<Command>, ops: bool) -> Seq<Command>
    decreases s.len(),
{
    if s.len() == 0 {
        s
    } else if !s[0].ops_only || ops {
        seq![s[0]] + spec_visible(s.drop_first(), ops)
    } else {
        spec_visible(s.drop_first(), ops)
    }
}

proof fn lemma_visible_snoc(s: Seq<Command>, x: Command, ops: bool)
    ensures
        spec_visible(s.push(x), ops) == spec_visible(s, ops) + if !x.ops_only || ops {
            seq![x]
        } else {
            Seq::<Command>::empty()
        },
    decreases s.len(),
{
    if s.len() == 0 {
        assert(s.push(x)[0] == x);
        assert(s.push(x).drop_first() =~= Seq::<Command>::empty());
        if !x.ops_only || ops {
            assert(spec_visible(s, ops) + seq![x] =~= seq![x]);
            assert(seq![x] + spec_visible(Seq::<Command>::empty(), ops) =~= seq![x]);
        } else {
            assert(spec_visible(s, ops) + Seq::<Command>::empty() =~= Seq::<Command>::empty());
        }
    } else {
        assert(s.push(x)[0] == s[0]);
        assert(s.push(x).drop_first() =~= s.drop_first().push(x));
        lemma_visible_snoc(s.drop_first(), x, ops);
        if !s[0].ops_only || ops {
            assert(seq![s[0]] + (spec_visible(s.drop_first(), ops) + if !x.ops_only || ops {
                seq![x]
            } else {
                Seq::<Command>::empty()
            }) =~= (seq![s[0]] + spec_visible(s.drop_first(), ops)) + if !x.ops_only || ops {
                seq![x]
            } else {
                Seq::<Command>::empty()
            });
        }
    }
}

impl CommandList {
    /// Register a command, replacing any earlier one of the same name.
    pub fn register(&mut self, command: Command)
        ensures
            final(self).commands@ == spec_remove_cmd(old(self).commands@, command.name@).push(
                command,
            ),
    {
        let mut kept: Vec<Command> = Vec::new();
        let mut i: usize = 0;
        while i < self.commands.len()
            invariant
                0 <= i <= self.commands@.len(),
                kept@ == spec_remove_cmd(self.commands@.subrange(0, i as int), command.name@),
                *self == *old(self),
            decreases self.commands@.len() - i,
        {
            let ghost pre = self.commands@.subrange(0, i as int);
            let e = self.commands[i];
            if !crate::userdata::str_eq(e.name, command.name) {
                kept.push(e);
            }
            proof {
                lemma_remove_cmd_snoc(pre, self.commands@[i as int], command.name@);
                assert(pre.push(self.commands@[i as int]) =~= self.commands@.subrange(0, i + 1));
            }
            i = i + 1;
        }
        proof {
            assert(self.commands@.subrange(0, self.commands@.len() as int) =~= self.commands@);
        }
        kept.push(command);
        self.commands = kept;
    }

    /// Look a command up by name: the first registered match.
    pub fn get(&self, name: &String) -> (r: Option<&Command>)
        ensures
            r matches Some(c) ==> spec_first_cmd_from(self.commands@, name@, 0) == Some(*c)
                && c.name@ == name@,
            r is None ==> spec_first_cmd_from(self.commands@, name@, 0) is None,
    {
        let mut i: usize = 0;
        while i < self.commands.len()
            invariant
                0 <= i <= self.commands@.len(),
                spec_first_cmd_from(self.commands@, name@, 0) == spec_first_cmd_from(
                    self.commands@,
                    name@,
                    i as int,
                ),
            decreases self.commands@.len() - i,
        {
            if crate::userdata::str_eq(self.commands[i].name, name.as_str()) {
                return Some(&self.commands[i]);
            }
            i = i + 1;
        }
        None
    }

    /// The commands visible at a permission level, in registry order.
    pub fn iter(&self, ops: bool) -> (r: Vec<Command>)
        ensures
            r@ == spec_visible(self.commands@, ops),
    {
        let mut out: Vec<Command> = Vec::new();
        let mut i: usize = 0;
        while i < self.commands.len()
            invariant
                0 <= i <= self.commands@.len(),
                out@ == spec_visible(self.commands@.subrange(0, i as int), ops),
            decreases self.commands@.len() - i,
        {
            let ghost pre = self.commands@.subrange(0, i as int);
            let c = self.commands[i];
            if !c.ops_only || ops {
                out.push(c);
            }
            proof {
                lemma_visible_snoc(pre, self.commands@[i as int], ops);
                assert(pre.push(self.commands@[i as int]) =~= self.commands@.subrange(0, i + 1));
            }
            i = i + 1;
        }
        proof {
            assert(self.commands@.subrange(0, self.commands@.len() as int) =~= self.commands@);
        }
        out
    }

    /// The standard registry: the full command set of the server.
    #[verifier::rlimit(60)]
    pub fn new() -> (r: CommandList)
        ensures
            spec_standard_registry(r.commands@),
    {
        let mut commands = CommandList { commands: Vec::new() };
        commands.commands.push(Command {
            name: "help",
            desc: "Shows help.",
            usage: "[command]",
            ops_only: false,
            unmuted_only: false,
            unrestricted_only: false,
            kind: CommandKind::Help,
        });
        commands.commands.push(Command {
            name: "rules",
            desc: "Shows rules.",
            usage: "",
            ops_only: false,
            unmuted_only: false,
            unrestricted_only: false,
            kind: CommandKind::Rules,
        });
        commands.commands.push(Command {
            name: "kick",
            desc: "Kicks a user from the server.",
            usage: "<username>",
            ops_only: true,
            unmuted_only: false,
            unrestricted_only: false,
            kind: CommandKind::Kick,
        });
        commands.commands.push(Command {
            name: "ban",
            desc: "Bans a user from the server.",
            usage: "<username>",
            ops_only: true,
            unmuted_only: false,
            unrestricted_only: false,
            kind: CommandKind::Ban,
        });
        commands.commands.push(Command {
            name: "banip",
            desc: "IP-bans a user from the server.",
            usage: "<username>",
            ops_only: true,
            unmuted_only: false,
            unrestricted_only: false,
            kind: CommandKind::BanIp,
        });
        commands.commands.push(Command {
            name: "unban",
            desc: "Unbans a user from the server.",
            usage: "<username>",
            ops_only: true,
            unmuted_only: false,
            unrestricted_only: false,
            kind: CommandKind::Unban,
        });
        commands.commands.push(Command {
            name: "mute",
            desc: "Mutes a user from the server.",
            usage: "<username>",
            ops_only: true,
            unmuted_only: true,
            unrestricted_only: false,
            kind: CommandKind::Mute,
        });
        commands.commands.push(Command {
            name: "unmute",
            desc: "Unmutes a user from the server.",
            usage: "<username>",
            ops_only: true,
            unmuted_only: true,
            unrestricted_only: false,
            kind: CommandKind::Unmute,
        });
        commands.commands.push(Command {
            name: "restrict",
            desc: "Restricts a user from the server.",
            usage: "<username>",
            ops_only: true,
            unmuted_only: false,
            unrestricted_only: true,
            kind: CommandKind::Restrict,
        });
        commands.commands.push(Command {
            name: "unrestrict",
            desc: "Unrestricts a user from the server.",
            usage: "<username>",
            ops_only: true,
            unmuted_only: false,
            unrestricted_only: true,
            kind: CommandKind::Unrestrict,
        });
        commands.commands.push(Command {
            name: "tp",
            desc: "Teleports yourself to a target. It can either be a position, or a user.",
            usage: "<x> <y> <z> || <username>",
            ops_only: false,
            unmuted_only: false,
            unrestricted_only: false,
            kind: CommandKind::Tp,
        });
        commands.commands.push(Command {
            name: "tpo",
            desc: "Teleport another player to a target. It can either be a position, or a user.",
            usage: "<username> ( <x> <y> <z> || <username> )",
            ops_only: true,
            unmuted_only: false,
            unrestricted_only: false,
            kind: CommandKind::Tpo,
        });
        commands.commands.push(Command {
            name: "save",
            desc: "Saves the world. This also creates a backup.",
            usage: "",
            ops_only: true,
            unmuted_only: false,
            unrestricted_only: false,
            kind: CommandKind::Save,
        });
        commands.commands.push(Command {
            name: "msg",
            desc: "Sends a message to a player.",
            usage: "<player> <message>",
            ops_only: false,
            unmuted_only: true,
            unrestricted_only: false,
            kind: CommandKind::Msg,
        });
        commands.commands.push(Command {
            name: "reload-config",
            desc: "Reload the configuration files.",
            usage: "",
            ops_only: true,
            unmuted_only: false,
            unrestricted_only: false,
            kind: CommandKind::ReloadConfig,
        });
        commands.commands.push(Command {
            name: "cuboid",
            desc: "Creates a cube",
            usage: "<x1> <y1> <z1> <x2> <y2> <z2> <block>",
            ops_only: true,
            unmuted_only: false,
            unrestricted_only: true,
            kind: CommandKind::Cuboid,
        });
        proof {
            reveal_with_fuel(spec_first_cmd_from, 18);
            reveal_strlit("help");
            reveal_strlit("rules");
            reveal_strlit("kick");
            reveal_strlit("ban");
            reveal_strlit("banip");
            reveal_strlit("unban");
            reveal_strlit("mute");
            reveal_strlit("unmute");
            reveal_strlit("restrict");
            reveal_strlit("unrestrict");
            reveal_strlit("tp");
            reveal_strlit("tpo");
            reveal_strlit("save");
            reveal_strlit("msg");
            reveal_strlit("reload-config");
            reveal_strlit("cuboid");
            let cs = commands.commands@;
            assert(cs.len() == 16);
            assert("help"@ != "kick"@) by {
                assert("help"@[0] != "kick"@[0]);
            }
            assert("help"@ != "mute"@) by {
                assert("help"@[0] != "mute"@[0]);
            }
            assert("help"@ != "save"@) by {
                assert("help"@[0] != "save"@[0]);
            }
            assert("kick"@ != "mute"@) by {
                assert("kick"@[0] != "mute"@[0]);
            }
            assert("kick"@ != "save"@) by {
                assert("kick"@[0] != "save"@[0]);
            }
            assert("mute"@ != "save"@) by {
                assert("mute"@[0] != "save"@[0]);
            }
            assert("rules"@ != "banip"@) by {
                assert("rules"@[0] != "banip"@[0]);
            }
            assert("rules"@ != "unban"@) by {
                assert("rules"@[0] != "unban"@[0]);
            }
            assert("banip"@ != "unban"@) by {
                assert("banip"@[0] != "unban"@[0]);
            }
            assert("ban"@ != "tpo"@) by {
                assert("ban"@[0] != "tpo"@[0]);
            }
            assert("ban"@ != "msg"@) by {
                assert("ban"@[0] != "msg"@[0]);
            }
            assert("tpo"@ != "msg"@) by {
                assert("tpo"@[0] != "msg"@[0]);
            }
            assert("unmute"@ != "cuboid"@) by {
                assert("unmute"@[0] != "cuboid"@[0]);
            }
            assert(cs[0].name@ == "help"@);
            assert(cs[1].name@ == "rules"@);
            assert(cs[2].name@ == "kick"@);
            assert(cs[3].name@ == "ban"@);
            assert(cs[4].name@ == "banip"@);
            assert(cs[5].name@ == "unban"@);
            assert(cs[6].name@ == "mute"@);
            assert(cs[7].name@ == "unmute"@);
            assert(cs[8].name@ == "restrict"@);
            assert(cs[9].name@ == "unrestrict"@);
            assert(cs[10].name@ == "tp"@);
            assert(cs[11].name@ == "tpo"@);
            assert(cs[12].name@ == "save"@);
            assert(cs[13].name@ == "msg"@);
            assert(cs[14].name@ == "reload-config"@);
            assert(cs[15].name@ == "cuboid"@);
            assert(spec_first_cmd_from(cs, "help"@, 0) == Some(cs[0]));
            assert(spec_first_cmd_from(cs, "rules"@, 0) == Some(cs[1]));
            assert(spec_first_cmd_from(cs, "kick"@, 0) == Some(cs[2]));
            assert(spec_first_cmd_from(cs, "ban"@, 0) == Some(cs[3]));
            assert(spec_first_cmd_from(cs, "banip"@, 0) == Some(cs[4]));
            assert(spec_first_cmd_from(cs, "unban"@, 0) == Some(cs[5]));
            assert(spec_first_cmd_from(cs, "mute"@, 0) == Some(cs[6]));
            assert(spec_first_cmd_from(cs, "unmute"@, 0) == Some(cs[7]));
            assert(spec_first_cmd_from(cs, "restrict"@, 0) == Some(cs[8]));
            assert(spec_first_cmd_from(cs, "unrestrict"@, 0) == Some(cs[9]));
            assert(spec_first_cmd_from(cs, "tp"@, 0) == Some(cs[10]));
            assert(spec_first_cmd_from(cs, "tpo"@, 0) == Some(cs[11]));
            assert(spec_first_cmd_from(cs, "save"@, 0) == Some(cs[12]));
            assert(spec_first_cmd_from(cs, "msg"@, 0) == Some(cs[13]));
            assert(spec_first_cmd_from(cs, "reload-config"@, 0) == Some(cs[14]));
            assert(spec_first_cmd_from(cs, "cuboid"@, 0) == Some(cs[15]));
        }
        commands
    }
}

/// What the caller must do after a command: nothing, load the
/// configuration file and hand it back, or save the level to disk.
pub enum CommandAction {
    Done,
    LoadConfig,
    SaveLevel,
}

/// Slot `bid` holds the first connected client named `n`.
pub open spec fn spec_min_match(cs: Seq<Option<crate::client::Client>>, n: Seq<char>, bid: int) -> bool {
    &&& 0 <= bid < cs.len()
    &&& (cs[bid] matches Some(c) && c.username@ == n)
    &&& forall|j: int|
        0 <= j < bid ==> !((#[trigger] cs[j]) matches Some(c2) && c2.username@ == n)
}

/// No connected client is named `n`.
pub open spec fn spec_no_match(cs: Seq<Option<crate::client::Client>>, n: Seq<char>) -> bool {
    forall|j: int|
        0 <= j < cs.len() ==> !((#[trigger] cs[j]) matches Some(c) && c.username@ == n)
}

/// What the ban command does to the tables: nothing for an empty or a
/// self-naming target; otherwise the joined name enters the ban list and
/// the first client of that name, if any, leaves the table.
pub open spec fn spec_ban_post(a: Server, b: Server, id: i8, args: Seq<String>) -> bool {
    let n = crate::strutil::spec_join(args);
    &&& (n.len() == 0 ==> b.clients == a.clients && b.client_count == a.client_count
        && b.config.user_data == a.config.user_data)
    &&& (forall|bid: int|
        #[trigger] spec_min_match(a.clients@, n, bid) ==> (n.len() > 0 ==> ((bid == id
            ==> b.clients == a.clients && b.config.user_data == a.config.user_data) && (bid != id
            ==> b.clients@ == a.clients@.update(bid, None) && b.client_count == a.client_count
            - 1 && b.config.user_data.banned.spec_contains_username(n)))))
    &&& (n.len() > 0 && spec_no_match(a.clients@, n) ==> b.clients == a.clients
        && b.config.user_data.banned.spec_contains_username(n))
}

/// What the kick command does to the table: the first client of the
/// joined name leaves it; nobody else moves.
pub open spec fn spec_kick_post(a: Server, b: Server, args: Seq<String>) -> bool {
    let n = crate::strutil::spec_join(args);
    &&& (n.len() == 0 ==> b.clients == a.clients && b.client_count == a.client_count)
    &&& (forall|bid: int|
        #[trigger] spec_min_match(a.clients@, n, bid) ==> (n.len() > 0 ==> b.clients@
            == a.clients@.update(bid, None) && b.client_count == a.client_count - 1))
    &&& (n.len() > 0 && spec_no_match(a.clients@, n) ==> b.clients == a.clients)
    &&& b.config.user_data == a.config.user_data
}

/// Adding the joined name to one of the user lists.
pub open spec fn spec_listed_post(pre: &crate::userdata::UserList, post: &crate::userdata::UserList, args: Seq<String>) -> bool {
    let n = crate::strutil::spec_join(args);
    &&& (n.len() == 0 ==> *post == *pre)
    &&& (n.len() > 0 ==> post.spec_contains_username(n) && post.ips == pre.ips)
}

/// Removing every entry of the joined name from one of the user lists.
pub open spec fn spec_unlisted_post(pre: &crate::userdata::UserList, post: &crate::userdata::UserList, args: Seq<String>) -> bool {
    let n = crate::strutil::spec_join(args);
    &&& (n.len() == 0 ==> *post == *pre)
    &&& (n.len() > 0 ==> post.usernames@ == crate::userdata::spec_remove_str(pre.usernames@, n)
        && post.ips == pre.ips && !post.spec_contains_username(n))
}

/// The teleport commands' coordinate form: a parsed, in-range target
/// puts the moved player exactly at the block-centred position.
pub open spec fn spec_moved_to(b: &Server, who: i8, px: i16, py: i16, pz: i16) -> bool {
    0 <= who < b.clients@.len() && (b.clients@[who as int] matches Some(c) && c.x as int == px
        * 32 + 16 && c.y as int == py * 32 + 61 && c.z as int == pz * 32 + 16)
}

pub open spec fn spec_tp_coord_args(args: Seq<String>, k: int) -> Option<(i16, i16, i16)> {
    if args.len() >= k + 3 {
        match (
            crate::strutil::spec_parse_i16(args[k]@),
            crate::strutil::spec_parse_i16(args[k + 1]@),
            crate::strutil::spec_parse_i16(args[k + 2]@),
        ) {
            (Some(px), Some(py), Some(pz)) => if px <= 1023 && px >= -1024 && py <= 1022 && py
                >= -1024 && pz < 1023 && pz >= -1024 {
                Some((px, py, pz))
            } else {
                None
            },
            _ => None,
        }
    } else {
        None
    }
}

impl Server {
    /// What the address ban does: the first client of the joined name is
    /// removed and its address enters the ban list.
    pub open spec fn spec_banip_post(a: Server, b: Server, id: i8, args: Seq<String>) -> bool {
        let n = crate::strutil::spec_join(args);
        &&& (n.len() == 0 ==> b.clients == a.clients && b.client_count == a.client_count
            && b.config.user_data == a.config.user_data)
        &&& (forall|bid: int|
            #[trigger] spec_min_match(a.clients@, n, bid) ==> (n.len() > 0 ==> ((bid == id
                ==> b.clients == a.clients && b.config.user_data == a.config.user_data) && (bid
                != id ==> b.clients@ == a.clients@.update(bid, None) && b.client_count
                == a.client_count - 1 && b.config.user_data.banned.spec_contains_ip(
                a.clients@[bid]->0.ip@,
            )))))
        &&& (n.len() > 0 && spec_no_match(a.clients@, n) ==> b.clients == a.clients
            && b.config.user_data == a.config.user_data)
    }

    /// The box-fill request, when all seven arguments parse, the block is
    /// catalogued and both corners are inside the level: the least corner
    /// and the block.
    pub open spec fn spec_cuboid_request(a: &Server, args: Seq<String>) -> Option<
        (i16, i16, i16, u8),
    > {
        if args.len() >= 7 {
            match (
                crate::strutil::spec_parse_i16(args[0]@),
                crate::strutil::spec_parse_i16(args[1]@),
                crate::strutil::spec_parse_i16(args[2]@),
                crate::strutil::spec_parse_i16(args[3]@),
                crate::strutil::spec_parse_i16(args[4]@),
                crate::strutil::spec_parse_i16(args[5]@),
                crate::strutil::spec_parse_u8(args[6]@),
            ) {
                (Some(x1), Some(y1), Some(z1), Some(x2), Some(y2), Some(z2), Some(block)) => if
                    block >= 50 || x1 < 0 || x1 >= a.level.size_x || y1 < 0 || y1
                    >= a.level.size_y || z1 < 0 || z1 >= a.level.size_z || x2 < 0 || x2
                    >= a.level.size_x || y2 < 0 || y2 >= a.level.size_y || z2 < 0 || z2
                    >= a.level.size_z {
                    None
                } else {
                    Some(
                        (
                            if x1 < x2 { x1 } else { x2 },
                            if y1 < y2 { y1 } else { y2 },
                            if z1 < z2 { z1 } else { z2 },
                            block,
                        ),
                    )
                },
                _ => None,
            }
        } else {
            None
        }
    }

    /// The console, or a connected client.
    pub open spec fn spec_caller_valid(&self, id: i8) -> bool {
        id == -1 || (0 <= id < self.clients@.len() && self.clients@[id as int] is Some)
    }

    /// The caller's permission level; the console is an operator.
    pub open spec fn spec_caller_mode(&self, id: i8) -> ClientMode {
        if id == -1 {
            ClientMode::Operator
        } else {
            self.clients@[id as int]->0.mode
        }
    }

    /// Whether the mute list names the caller; the console is never muted.
    pub open spec fn spec_caller_muted(&self, id: i8) -> bool {
        id != -1 && self.config.user_data.muted.spec_contains_username(
            self.clients@[id as int]->0.username@,
        )
    }

    /// Whether the restriction list names the caller.
    pub open spec fn spec_caller_restricted(&self, id: i8) -> bool {
        id != -1 && self.config.user_data.restricted.spec_contains_username(
            self.clients@[id as int]->0.username@,
        )
    }

    /// The notice sent back when a command's access flags refuse the
    /// caller, in the order the flags are checked.
    pub open spec fn spec_refusal_notice(&self, id: i8, c: Command) -> Seq<char> {
        if c.ops_only && self.spec_caller_mode(id) != ClientMode::Operator {
            "You do not have permission to use that command."@
        } else if c.unmuted_only && self.spec_caller_muted(id) {
            "You are muted, you cannot use this command."@
        } else {
            "You are restricted, you cannot use this command."@
        }
    }

    /// The command that a caller's request resolves to and is allowed to
    /// run: the caller must be the console or a connected client, the
    /// name must be registered, and the command's access flags must pass
    /// against the caller's mode and the muted and restricted lists.
    pub open spec fn spec_permitted_command(&self, id: i8, name: Seq<char>) -> Option<Command> {
        if !self.spec_caller_valid(id) {
            None
        } else {
            match spec_first_cmd_from(self.commands.commands@, name, 0) {
                Some(c) => if (c.ops_only && self.spec_caller_mode(id) != ClientMode::Operator)
                    || (c.unmuted_only && self.spec_caller_muted(id)) || (c.unrestricted_only
                    && self.spec_caller_restricted(id)) {
                    None
                } else {
                    Some(c)
                },
                None => None,
            }
        }
    }
    fn cmd_help(&mut self, id: i8, args: &Vec<String>, mode: ClientMode) -> (r: Result<
        (),
        String,
    >)
        requires
            old(self).inv(),
        ensures
            final(self).inv(),
            final(self).clients == old(self).clients,
            final(self).client_count == old(self).client_count,
            final(self).level == old(self).level,
            final(self).config == old(self).config,
            final(self).commands == old(self).commands,
    {
        if args.len() > 0 {
            let wanted = args[0].clone();
            let found = match self.commands.get(&wanted) {
                Some(c) => Some(*c),
                None => None,
            };
            match found {
                Some(command) => {
                    let mut m = String::from_str("- /");
                    m.append(command.name);
                    m.append(" -\n  ");
                    m.append(command.desc);
                    m.append("\n  Usage: /");
                    m.append(command.name);
                    m.append(" ");
                    m.append(command.usage);
                    self.send_message_checked(-1, id, m.as_str());
                },
                None => {
                    self.send_message_checked(-1, id, "This command does not exist.");
                },
            }
        } else {
            let mut m = String::from_str("List of available commands:");
            let visible = self.commands.iter(mode == ClientMode::Operator);
            let mut i: usize = 0;
            while i < visible.len()
                invariant
                    self.inv(),
                decreases visible@.len() - i,
            {
                m.append("\n  /");
                m.append(visible[i].name);
                m.append(" - ");
                m.append(visible[i].desc);
                i = i + 1;
            }
            self.send_message_checked(-1, id, m.as_str());
        }
        Ok(())
    }

    fn cmd_rules(&mut self, id: i8) -> (r: Result<(), String>)
        requires
            old(self).inv(),
        ensures
            final(self).inv(),
            final(self).clients == old(self).clients,
            final(self).client_count == old(self).client_count,
            final(self).level == old(self).level,
            final(self).config == old(self).config,
            final(self).commands == old(self).commands,
    {
        let rules = self.config.rules.clone();
        self.send_message_checked(-1, id, rules.as_str());
        Ok(())
    }

    fn cmd_kick(&mut self, args: &Vec<String>) -> (r: Result<(), String>)
        requires
            old(self).inv(),
        ensures
            final(self).inv(),
            spec_kick_post(*old(self), *final(self), args@),
            final(self).level == old(self).level,
    {
        let username = join_spaces(args);
        if username.as_str().unicode_len() == 0 {
            return Err(String::from_str("No username was provided."));
        }
        match self.get_index_from_username(username.as_str()) {
            Some(kid) => {
                self.kick(kid, String::from_str("You have been kicked."));
                let mut m = username;
                m.append(" has been kicked.");
                self.broadcast_system_message_checked(-1, m.as_str());
                Ok(())
            },
            None => {
                let mut m = username;
                m.append(" is not in the server.");
                Err(m)
            },
        }
    }

    fn cmd_ban(&mut self, id: i8, args: &Vec<String>) -> (r: Result<(), String>)
        requires
            old(self).inv(),
        ensures
            final(self).inv(),
            spec_ban_post(*old(self), *final(self), id, args@),
            final(self).level == old(self).level,
            r is Ok ==> final(self).config.user_data.banned.spec_contains_username(
                crate::strutil::spec_join(args@),
            ),
    {
        let username = join_spaces(args);
        if username.as_str().unicode_len() == 0 {
            return Err(String::from_str("No username was provided."));
        }
        let mut m = username.clone();
        m.append(" has been banned.");
        match self.get_index_from_username(username.as_str()) {
            Some(bid) => {
                if id == bid {
                    return Err(String::from_str("You wouldn't want to ban yourself."));
                }
                self.kick(bid, String::from_str("You have been banned."));
                self.broadcast_system_message_checked(-1, m.as_str());
            },
            None => {
                self.send_message_checked(-1, id, m.as_str());
            },
        }
        self.config.user_data.banned.add_username(username);
        Ok(())
    }

    fn cmd_banip(&mut self, id: i8, args: &Vec<String>) -> (r: Result<(), String>)
        requires
            old(self).inv(),
        ensures
            final(self).inv(),
            Server::spec_banip_post(*old(self), *final(self), id, args@),
            final(self).level == old(self).level,
    {
        let username = join_spaces(args);
        if username.as_str().unicode_len() == 0 {
            return Err(String::from_str("No username was provided."));
        }
        match self.get_index_from_username(username.as_str()) {
            Some(bid) => {
                if id == bid {
                    return Err(String::from_str("You wouldn't want to ban yourself."));
                }
                let ip = match &self.clients[bid as usize] {
                    Some(c) => c.ip.clone(),
                    None => {
                        return Err(String::from_str("Could not find the target."));
                    },
                };
                self.config.user_data.banned.add_ip(ip);
                self.kick(bid, String::from_str("You have been banned."));
                let mut m = username;
                m.append(" has been banned.");
                self.broadcast_system_message_checked(-1, m.as_str());
                Ok(())
            },
            None => {
                let mut m = String::from_str("Could not find ");
                m.append(username.as_str());
                m.append(".");
                Err(m)
            },
        }
    }

    fn cmd_unban(&mut self, id: i8, args: &Vec<String>) -> (r: Result<(), String>)
        requires
            old(self).inv(),
        ensures
            final(self).inv(),
            spec_unlisted_post(
                &old(self).config.user_data.banned,
                &final(self).config.user_data.banned,
                args@,
            ),
            final(self).clients == old(self).clients,
            final(self).client_count == old(self).client_count,
            final(self).level == old(self).level,
    {
        let username = join_spaces(args);
        if username.as_str().unicode_len() == 0 {
            return Err(String::from_str("No username was provided."));
        }
        if self.config.user_data.banned.remove_username(&username) {
            let mut m = username;
            m.append(" has been unbanned.");
            self.send_message_checked(-1, id, m.as_str());
        } else {
            let mut m = username;
            m.append(" is not in the ban list.");
            self.send_message_checked(-1, id, m.as_str());
        }
        Ok(())
    }

    fn cmd_mute(&mut self, id: i8, args: &Vec<String>) -> (r: Result<(), String>)
        requires
            old(self).inv(),
        ensures
            final(self).inv(),
            spec_listed_post(
                &old(self).config.user_data.muted,
                &final(self).config.user_data.muted,
                args@,
            ),
            final(self).clients == old(self).clients,
            final(self).client_count == old(self).client_count,
            final(self).level == old(self).level,
    {
        let username = join_spaces(args);
        if username.as_str().unicode_len() == 0 {
            return Err(String::from_str("No username was provided."));
        }
        match self.get_index_from_username(username.as_str()) {
            Some(mid) => {
                self.send_message_checked(-1, mid, "You have been muted.");
            },
            None => {},
        }
        let mut m = username.clone();
        m.append(" has been muted.");
        self.send_message_checked(-1, id, m.as_str());
        self.config.user_data.muted.add_username(username);
        Ok(())
    }

    fn cmd_unmute(&mut self, id: i8, args: &Vec<String>) -> (r: Result<(), String>)
        requires
            old(self).inv(),
        ensures
            final(self).inv(),
            spec_unlisted_post(
                &old(self).config.user_data.muted,
                &final(self).config.user_data.muted,
                args@,
            ),
            final(self).clients == old(self).clients,
            final(self).client_count == old(self).client_count,
            final(self).level == old(self).level,
    {
        let username = join_spaces(args);
        if username.as_str().unicode_len() == 0 {
            return Err(String::from_str("No username was provided."));
        }
        if self.config.user_data.muted.remove_username(&username) {
            match self.get_index_from_username(username.as_str()) {
                Some(mid) => {
                    self.send_message_checked(-1, mid, "You have been unmuted.");
                },
                None => {},
            }
            let mut m = username;
            m.append(" has been unmutted.");
            self.send_message_checked(-1, id, m.as_str());
        } else {
            let mut m = username;
            m.append(" is not in the mute list.");
            self.send_message_checked(-1, id, m.as_str());
        }
        Ok(())
    }

    fn cmd_restrict(&mut self, id: i8, args: &Vec<String>) -> (r: Result<(), String>)
        requires
            old(self).inv(),
        ensures
            final(self).inv(),
            spec_listed_post(
                &old(self).config.user_data.restricted,
                &final(self).config.user_data.restricted,
                args@,
            ),
            final(self).clients == old(self).clients,
            final(self).client_count == old(self).client_count,
            final(self).level == old(self).level,
    {
        let username = join_spaces(args);
        if username.as_str().unicode_len() == 0 {
            return Err(String::from_str("No username was provided."));
        }
        match self.get_index_from_username(username.as_str()) {
            Some(rid) => {
                self.send_message_checked(-1, rid, "You have been restricted.");
            },
            None => {},
        }
        let mut m = username.clone();
        m.append(" has been restricted.");
        self.send_message_checked(-1, id, m.as_str());
        self.config.user_data.restricted.add_username(username);
        Ok(())
    }

    fn cmd_unrestrict(&mut self, id: i8, args: &Vec<String>) -> (r: Result<(), String>)
        requires
            old(self).inv(),
        ensures
            final(self).inv(),
            spec_unlisted_post(
                &old(self).config.user_data.restricted,
                &final(self).config.user_data.restricted,
                args@,
            ),
            final(self).clients == old(self).clients,
            final(self).client_count == old(self).client_count,
            final(self).level == old(self).level,
    {
        let username = join_spaces(args);
        if username.as_str().unicode_len() == 0 {
            return Err(String::from_str("No username was provided."));
        }
        if self.config.user_data.restricted.remove_username(&username) {
            match self.get_index_from_username(username.as_str()) {
                Some(rid) => {
                    self.send_message_checked(-1, rid, "You have been unrestricted.");
                },
                None => {},
            }
            let mut m = username;
            m.append(" has been unrestricted.");
            self.send_message_checked(-1, id, m.as_str());
        } else {
            let mut m = username;
            m.append(" is not in the restriction list.");
            self.send_message_checked(-1, id, m.as_str());
        }
        Ok(())
    }

    fn cmd_tp(&mut self, id: i8, args: &Vec<String>) -> (r: Result<(), String>)
        requires
            old(self).inv(),
        ensures
            final(self).inv(),
            final(self).level == old(self).level,
            final(self).config.user_data == old(self).config.user_data,
            final(self).client_count == old(self).client_count,
            spec_tp_coord_args(args@, 0) matches Some(p) ==> (0 <= id < old(self).clients@.len()
                && old(self).clients@[id as int] is Some ==> spec_moved_to(
                final(self),
                id,
                p.0,
                p.1,
                p.2,
            )),
    {
        if args.len() >= 3 {
            let px = parse_i16(args[0].as_str());
            let py = parse_i16(args[1].as_str());
            let pz = parse_i16(args[2].as_str());
            match (px, py, pz) {
                (Some(x), Some(y), Some(z)) => {
                    if x <= 1023 && x >= -1024 && y <= 1022 && y >= -1024 && z < 1023 && z
                        >= -1024 {
                        let looking = if id >= 0 && (id as usize) < self.clients.len() {
                            match &self.clients[id as usize] {
                                Some(c) => Some((c.yaw, c.pitch)),
                                None => None,
                            }
                        } else {
                            None
                        };
                        match looking {
                            Some((yaw, pitch)) => {
                                self.move_player(
                                    id,
                                    -1,
                                    x * 32 + 16,
                                    y * 32 + 61,
                                    z * 32 + 16,
                                    yaw,
                                    pitch,
                                );
                                let mut m = String::from_str("Teleported to coordinate ");
                                m.append(fmt_i16(x).as_str());
                                m.append(" ");
                                m.append(fmt_i16(y).as_str());
                                m.append(" ");
                                m.append(fmt_i16(z).as_str());
                                m.append(".");
                                self.send_message_checked(-1, id, m.as_str());
                                return Ok(());
                            },
                            None => {
                                return Err(String::from_str("Invalid target."));
                            },
                        }
                    }
                },
                _ => {},
            }
        }
        if args.len() >= 1 {
            let target = args[0].clone();
            let pos = match self.get_client_from_username(target.as_str()) {
                Some(t) => Some((t.x, t.y, t.z, t.yaw, t.pitch)),
                None => None,
            };
            match pos {
                Some((x, y, z, yaw, pitch)) => {
                    self.move_player(id, -1, x, y, z, yaw, pitch);
                    let mut m = String::from_str("Teleported to player ");
                    m.append(target.as_str());
                    m.append(".");
                    self.send_message_checked(-1, id, m.as_str());
                    return Ok(());
                },
                None => {},
            }
        }
        Err(String::from_str("Invalid target."))
    }

    fn cmd_tpo(&mut self, fid: i8, args: &Vec<String>) -> (r: Result<(), String>)
        requires
            old(self).inv(),
        ensures
            final(self).inv(),
            final(self).level == old(self).level,
            final(self).config.user_data == old(self).config.user_data,
            final(self).client_count == old(self).client_count,
            spec_tp_coord_args(args@, 1) matches Some(p) ==> (args@.len() >= 1 ==> forall|
                tid: int,
            |
                #[trigger] spec_min_match(old(self).clients@, args@[0]@, tid) ==> spec_moved_to(
                    final(self),
                    tid as i8,
                    p.0,
                    p.1,
                    p.2,
                )),
    {
        let fusername = if fid >= 0 && (fid as usize) < self.clients.len() {
            match &self.clients[fid as usize] {
                Some(c) => c.username.clone(),
                None => String::from_str("Console"),
            }
        } else {
            String::from_str("Console")
        };
        if args.len() >= 1 {
            let username = args[0].clone();
            match self.get_index_from_username(username.as_str()) {
                Some(tid) => {
                    if args.len() >= 4 {
                        let px = parse_i16(args[1].as_str());
                        let py = parse_i16(args[2].as_str());
                        let pz = parse_i16(args[3].as_str());
                        match (px, py, pz) {
                            (Some(x), Some(y), Some(z)) => {
                                if x <= 1023 && x >= -1024 && y <= 1022 && y >= -1024 && z < 1023
                                    && z >= -1024 {
                                    let looking = match &self.clients[tid as usize] {
                                        Some(c) => Some((c.yaw, c.pitch)),
                                        None => None,
                                    };
                                    match looking {
                                        Some((yaw, pitch)) => {
                                            self.move_player(
                                                tid,
                                                -1,
                                                x * 32 + 16,
                                                y * 32 + 61,
                                                z * 32 + 16,
                                                yaw,
                                                pitch,
                                            );
                                            let mut coords = fmt_i16(x);
                                            coords.append(" ");
                                            coords.append(fmt_i16(y).as_str());
                                            coords.append(" ");
                                            coords.append(fmt_i16(z).as_str());
                                            let mut m = String::from_str("Teleported ");
                                            m.append(username.as_str());
                                            m.append(" to coordinate ");
                                            m.append(coords.as_str());
                                            m.append(".");
                                            self.send_message_checked(-1, fid, m.as_str());
                                            let mut m2 = String::from_str("Teleported by ");
                                            m2.append(fusername.as_str());
                                            m2.append(" to coordinate ");
                                            m2.append(coords.as_str());
                                            m2.append(".");
                                            self.send_message_checked(-1, tid, m2.as_str());
                                            return Ok(());
                                        },
                                        None => {
                                            return Err(String::from_str("Invalid target."));
                                        },
                                    }
                                }
                            },
                            _ => {},
                        }
                    }
                    if args.len() >= 2 {
                        let target = args[1].clone();
                        let pos = match self.get_client_from_username(target.as_str()) {
                            Some(t) => Some((t.x, t.y, t.z, t.yaw, t.pitch)),
                            None => None,
                        };
                        match pos {
                            Some((x, y, z, yaw, pitch)) => {
                                self.move_player(tid, -1, x, y, z, yaw, pitch);
                                let mut m = String::from_str("Teleported ");
                                m.append(username.as_str());
                                m.append(" to player ");
                                m.append(target.as_str());
                                self.send_message_checked(-1, fid, m.as_str());
                                let mut m2 = String::from_str("Teleported by ");
                                m2.append(fusername.as_str());
                                m2.append(" to player ");
                                m2.append(target.as_str());
                                m2.append(".");
                                self.send_message_checked(-1, tid, m2.as_str());
                                return Ok(());
                            },
                            None => {},
                        }
                    }
                    return Err(String::from_str("Invalid target."));
                },
                None => {},
            }
        }
        Err(String::from_str("Could not find user to teleport."))
    }

    fn cmd_msg(&mut self, fid: i8, args: &Vec<String>) -> (r: Result<(), String>)
        requires
            old(self).inv(),
        ensures
            final(self).inv(),
            final(self).clients == old(self).clients,
            final(self).client_count == old(self).client_count,
            final(self).level == old(self).level,
            final(self).config == old(self).config,
            final(self).commands == old(self).commands,
    {
        let sender = if fid >= 0 {
            let idx = fid as usize;
            if idx < self.clients.len() {
                match &self.clients[idx] {
                    Some(c) => c.username.clone(),
                    None => {
                        return Err(String::from_str("Major lack of a username."));
                    },
                }
            } else {
                return Err(String::from_str("Major lack of a username."));
            }
        } else {
            String::from_str("Console")
        };
        if args.len() >= 1 {
            let username = args[0].clone();
            match self.get_index_from_username(username.as_str()) {
                Some(tid) => {
                    let mut restv: Vec<String> = Vec::new();
                    let mut i: usize = 1;
                    while i < args.len()
                        invariant
                            self.inv(),
                        decreases args@.len() - i,
                    {
                        restv.push(args[i].clone());
                        i = i + 1;
                    }
                    let msg = join_spaces(&restv);
                    if msg.as_str().unicode_len() == 0 {
                        return Err(String::from_str("Please type in a message to send."));
                    }
                    let mut m = String::from_str("&7to <");
                    m.append(username.as_str());
                    m.append("> ");
                    m.append(msg.as_str());
                    self.send_message_checked(fid, fid, m.as_str());
                    let mut m2 = String::from_str("&7<");
                    m2.append(sender.as_str());
                    m2.append("> ");
                    m2.append(msg.as_str());
                    self.send_message_checked(fid, tid, m2.as_str());
                    return Ok(());
                },
                None => {},
            }
        }
        Err(String::from_str("Unknown player."))
    }

    #[verifier::loop_isolation(false)]
    fn cmd_cuboid(&mut self, id: i8, args: &Vec<String>) -> (r: Result<(), String>)
        requires
            old(self).inv(),
        ensures
            final(self).inv(),
            final(self).clients == old(self).clients,
            final(self).client_count == old(self).client_count,
            final(self).config.user_data == old(self).config.user_data,
            final(self).level.same_frame(&old(self).level),
            Server::spec_cuboid_request(old(self), args@) is None ==> final(self).level == old(
                self,
            ).level,
            Server::spec_cuboid_request(old(self), args@) matches Some(t) ==> (old(
                self,
            ).spec_place_allowed(id, t.0, t.1, t.2, t.3) ==> final(self).level.changed),
    {
        if args.len() >= 7 {
            let p1 = parse_i16(args[0].as_str());
            let p2 = parse_i16(args[1].as_str());
            let p3 = parse_i16(args[2].as_str());
            let p4 = parse_i16(args[3].as_str());
            let p5 = parse_i16(args[4].as_str());
            let p6 = parse_i16(args[5].as_str());
            let pb = parse_u8(args[6].as_str());
            match (p1, p2, p3, p4, p5, p6, pb) {
                (Some(x1), Some(y1), Some(z1), Some(x2), Some(y2), Some(z2), Some(block)) => {
                    if block >= 50 {
                        return Err(String::from_str("Invalid block ID."));
                    }
                    if x1 < 0 || x1 >= self.level.size_x || y1 < 0 || y1 >= self.level.size_y
                        || z1 < 0 || z1 >= self.level.size_z || x2 < 0 || x2
                        >= self.level.size_x || y2 < 0 || y2 >= self.level.size_y || z2 < 0 || z2
                        >= self.level.size_z {
                        return Err(String::from_str("Block out of bound."));
                    }
                    let x_lo = if x1 < x2 { x1 } else { x2 };
                    let x_hi = if x1 < x2 { x2 } else { x1 };
                    let y_lo = if y1 < y2 { y1 } else { y2 };
                    let y_hi = if y1 < y2 { y2 } else { y1 };
                    let z_lo = if z1 < z2 { z1 } else { z2 };
                    let z_hi = if z1 < z2 { z2 } else { z1 };
                    let ghost a0 = *old(self);
                    let mut x = x_lo;
                    while x <= x_hi
                        invariant
                            self.inv(),
                            x_lo <= x <= x_hi + 1,
                            x_hi < 32767,
                            y_hi < 32767,
                            z_hi < 32767,
                            self.clients == a0.clients,
                            self.client_count == a0.client_count,
                            self.config == a0.config,
                            self.commands == a0.commands,
                            self.level.same_frame(&a0.level),
                            x == x_lo ==> self.level == a0.level,
                            x > x_lo && a0.spec_place_allowed(id, x_lo, y_lo, z_lo, block)
                                ==> self.level.changed,
                        decreases x_hi + 1 - x,
                    {
                        let mut y = y_lo;
                        while y <= y_hi
                            invariant
                                self.inv(),
                                y_lo <= y <= y_hi + 1,
                                y_hi < 32767,
                                z_hi < 32767,
                                self.clients == a0.clients,
                                self.client_count == a0.client_count,
                                self.config == a0.config,
                                self.commands == a0.commands,
                                self.level.same_frame(&a0.level),
                                x == x_lo && y == y_lo ==> self.level == a0.level,
                                (x > x_lo || y > y_lo) && a0.spec_place_allowed(
                                    id,
                                    x_lo,
                                    y_lo,
                                    z_lo,
                                    block,
                                ) ==> self.level.changed,
                            decreases y_hi + 1 - y,
                        {
                            let mut z = z_lo;
                            while z <= z_hi
                                invariant
                                    self.inv(),
                                    z_lo <= z <= z_hi + 1,
                                    z_hi < 32767,
                                    self.clients == a0.clients,
                                    self.client_count == a0.client_count,
                                    self.config == a0.config,
                                    self.commands == a0.commands,
                                    self.level.same_frame(&a0.level),
                                    x == x_lo && y == y_lo && z == z_lo ==> self.level
                                        == a0.level,
                                    (x > x_lo || y > y_lo || z > z_lo)
                                        && a0.spec_place_allowed(id, x_lo, y_lo, z_lo, block)
                                        ==> self.level.changed,
                                decreases z_hi + 1 - z,
                            {
                                let ghost pre = *self;
                                self.set_block(id, x, y, z, block, false);
                                proof {
                                    if x == x_lo && y == y_lo && z == z_lo
                                        && a0.spec_place_allowed(id, x_lo, y_lo, z_lo, block) {
                                        assert(pre.level == a0.level && pre.clients == a0.clients
                                            && pre.config == a0.config);
                                        assert(pre.spec_place_allowed(id, x, y, z, block));
                                    }
                                }
                                z = z + 1;
                            }
                            y = y + 1;
                        }
                        x = x + 1;
                    }
                    return Ok(());
                },
                _ => {},
            }
        }
        Err(String::from_str("Invalid arguments."))
    }

    /// Everything the dispatcher promises: the action codes are exact;
    /// an invalid caller changes nothing; an unknown name or a refused
    /// command changes nothing but earns the caller the matching notice;
    /// a permitted command has its kind's effect.
    pub open spec fn spec_command_post(
        a: Server,
        b: Server,
        act: CommandAction,
        id: i8,
        name: Seq<char>,
        args: Seq<String>,
    ) -> bool {
        &&& b.inv()
        &&& ((act is LoadConfig) <==> (a.spec_permitted_command(id, name) matches Some(c)
            && c.kind == CommandKind::ReloadConfig))
        &&& ((act is SaveLevel) <==> (a.spec_permitted_command(id, name) matches Some(c)
            && c.kind == CommandKind::Save))
        &&& (!a.spec_caller_valid(id) ==> b == a && act is Done)
        &&& (a.spec_caller_valid(id) && spec_first_cmd_from(a.commands.commands@, name, 0)
            is None ==> b.clients == a.clients && b.client_count == a.client_count && b.level
            == a.level && b.config == a.config && b.commands == a.commands && exists|
            lines: Seq<String>,
        |
            spec_wrap_post("Unknown command. See /help."@, lines) && sent_view(b.outbox@)
                == sent_view(a.outbox@) + #[trigger] spec_private_deliveries(
                a.clients@,
                id,
                -1i8,
                lines,
            ))
        &&& (a.spec_caller_valid(id) ==> (spec_first_cmd_from(a.commands.commands@, name, 0)
            matches Some(c) ==> (a.spec_permitted_command(id, name) is None ==> b.clients
            == a.clients && b.client_count == a.client_count && b.level == a.level && b.config
            == a.config && b.commands == a.commands && exists|lines: Seq<String>|
            spec_wrap_post(a.spec_refusal_notice(id, c), lines) && sent_view(b.outbox@)
                == sent_view(a.outbox@) + #[trigger] spec_private_deliveries(
                a.clients@,
                id,
                -1i8,
                lines,
            ))))
        &&& (a.spec_permitted_command(id, name) matches Some(c) ==> match c.kind {
            CommandKind::Help => b.clients == a.clients && b.client_count == a.client_count
                && b.level == a.level && b.config.user_data == a.config.user_data,
            CommandKind::Rules => b.clients == a.clients && b.client_count == a.client_count
                && b.level == a.level && b.config.user_data == a.config.user_data,
            CommandKind::Kick => spec_kick_post(a, b, args) && b.level == a.level,
            CommandKind::Ban => spec_ban_post(a, b, id, args) && b.level == a.level,
            CommandKind::BanIp => Server::spec_banip_post(a, b, id, args) && b.level == a.level,
            CommandKind::Unban => spec_unlisted_post(
                &a.config.user_data.banned,
                &b.config.user_data.banned,
                args,
            ) && b.clients == a.clients && b.client_count == a.client_count && b.level
                == a.level,
            CommandKind::Mute => spec_listed_post(
                &a.config.user_data.muted,
                &b.config.user_data.muted,
                args,
            ) && b.clients == a.clients && b.client_count == a.client_count && b.level
                == a.level,
            CommandKind::Unmute => spec_unlisted_post(
                &a.config.user_data.muted,
                &b.config.user_data.muted,
                args,
            ) && b.clients == a.clients && b.client_count == a.client_count && b.level
                == a.level,
            CommandKind::Restrict => spec_listed_post(
                &a.config.user_data.restricted,
                &b.config.user_data.restricted,
                args,
            ) && b.clients == a.clients && b.client_count == a.client_count && b.level
                == a.level,
            CommandKind::Unrestrict => spec_unlisted_post(
                &a.config.user_data.restricted,
                &b.config.user_data.restricted,
                args,
            ) && b.clients == a.clients && b.client_count == a.client_count && b.level
                == a.level,
            CommandKind::Tp => b.level == a.level && b.config.user_data == a.config.user_data
                && b.client_count == a.client_count && (spec_tp_coord_args(args, 0)
                matches Some(p) ==> (0 <= id < a.clients@.len() && a.clients@[id as int] is Some
                ==> spec_moved_to(&b, id, p.0, p.1, p.2))),
            CommandKind::Tpo => b.level == a.level && b.config.user_data == a.config.user_data
                && b.client_count == a.client_count && (spec_tp_coord_args(args, 1)
                matches Some(p) ==> (args.len() >= 1 ==> forall|tid: int|
                #[trigger] spec_min_match(a.clients@, args[0]@, tid) ==> spec_moved_to(
                    &b,
                    tid as i8,
                    p.0,
                    p.1,
                    p.2,
                ))),
            CommandKind::Save => b.clients == a.clients && b.client_count == a.client_count
                && b.level == a.level && b.config == a.config,
            CommandKind::Msg => b.clients == a.clients && b.client_count == a.client_count
                && b.level == a.level && b.config.user_data == a.config.user_data,
            CommandKind::ReloadConfig => b == a,
            CommandKind::Cuboid => b.clients == a.clients && b.client_count == a.client_count
                && b.config.user_data == a.config.user_data && b.level.same_frame(&a.level) && (
            Server::spec_cuboid_request(&a, args) is None ==> b.level == a.level) && (
            Server::spec_cuboid_request(&a, args) matches Some(t) ==> (a.spec_place_allowed(
                id,
                t.0,
                t.1,
                t.2,
                t.3,
            ) ==> b.level.changed)),
        })
    }

    /// Dispatch one slash command: resolve the caller, check the
    /// command's access flags, run its effect, and send any error back
    /// to the caller as a system message. Commands whose work lives
    /// outside the server (loading the configuration file, writing the
    /// level) return the action for the caller to perform.
    pub fn command(&mut self, id: i8, name: String, args: Vec<String>) -> (act: CommandAction)
        requires
            old(self).inv(),
        ensures
            Server::spec_command_post(*old(self), *final(self), act, id, name@, args@),
    {
        proof {
            reveal_strlit("Unknown command. See /help.");
            reveal_strlit("You do not have permission to use that command.");
            reveal_strlit("You are muted, you cannot use this command.");
            reveal_strlit("You are restricted, you cannot use this command.");
        }
        let caller = if id == -1 {
            Some((String::from_str("Console"), ClientMode::Operator, false, false))
        } else {
            let idx = id as usize;
            if id >= 0 && idx < self.clients.len() {
                match &self.clients[idx] {
                    Some(c) => {
                        let muted = self.config.user_data.muted.contains_username(&c.username);
                        let restricted = self.config.user_data.restricted.contains_username(
                            &c.username,
                        );
                        Some((c.username.clone(), c.mode, muted, restricted))
                    },
                    None => None,
                }
            } else {
                None
            }
        };
        let (_username, mode, muted, restricted) = match caller {
            Some(t) => t,
            None => {
                return CommandAction::Done;
            },
        };
        let found = match self.commands.get(&name) {
            Some(c) => Some(*c),
            None => None,
        };
        match found {
            Some(command) => {
                if command.ops_only && mode != ClientMode::Operator {
                    self.send_message_checked(
                        -1,
                        id,
                        "You do not have permission to use that command.",
                    );
                } else if command.unmuted_only && muted {
                    self.send_message_checked(
                        -1,
                        id,
                        "You are muted, you cannot use this command.",
                    );
                } else if command.unrestricted_only && restricted {
                    self.send_message_checked(
                        -1,
                        id,
                        "You are restricted, you cannot use this command.",
                    );
                } else {
                    let run: Result<(), String> = match command.kind {
                        CommandKind::Help => self.cmd_help(id, &args, mode),
                        CommandKind::Rules => self.cmd_rules(id),
                        CommandKind::Kick => self.cmd_kick(&args),
                        CommandKind::Ban => self.cmd_ban(id, &args),
                        CommandKind::BanIp => self.cmd_banip(id, &args),
                        CommandKind::Unban => self.cmd_unban(id, &args),
                        CommandKind::Mute => self.cmd_mute(id, &args),
                        CommandKind::Unmute => self.cmd_unmute(id, &args),
                        CommandKind::Restrict => self.cmd_restrict(id, &args),
                        CommandKind::Unrestrict => self.cmd_unrestrict(id, &args),
                        CommandKind::Tp => self.cmd_tp(id, &args),
                        CommandKind::Tpo => self.cmd_tpo(id, &args),
                        CommandKind::Save => {
                            self.broadcast_message_checked(-1, "Saving world...");
                            return CommandAction::SaveLevel;
                        },
                        CommandKind::Msg => self.cmd_msg(id, &args),
                        CommandKind::ReloadConfig => {
                            return CommandAction::LoadConfig;
                        },
                        CommandKind::Cuboid => self.cmd_cuboid(id, &args),
                    };
                    let ghost mid = *self;
                    match run {
                        Ok(_) => {},
                        Err(e) => {
                            self.send_message_checked(-1, id, e.as_str());
                        },
                    }
                    proof {
                        let a = *old(self);
                        assert(self.clients == mid.clients && self.client_count
                            == mid.client_count && self.level == mid.level && self.config
                            == mid.config && self.commands == mid.commands);
                        if command.kind == CommandKind::Ban {
                            assert(spec_ban_post(a, *self, id, args@));
                        }
                        if command.kind == CommandKind::BanIp {
                            assert(Server::spec_banip_post(a, *self, id, args@));
                        }
                        if command.kind == CommandKind::Kick {
                            assert(spec_kick_post(a, *self, args@));
                        }
                    }
                }
            },
            None => {
                self.send_message_checked(-1, id, "Unknown command. See /help.");
            },
        }
        CommandAction::Done
    }

    /// Finish the save command after the caller wrote the level: report
    /// a failure to the invoker, then announce completion to everyone.
    pub fn finish_save(&mut self, id: i8, result: Result<(), String>)
        requires
            old(self).inv(),
        ensures
            final(self).inv(),
            final(self).clients == old(self).clients,
            final(self).client_count == old(self).client_count,
            final(self).level == old(self).level,
            final(self).config == old(self).config,
            result matches Err(e) ==> exists|le: Seq<String>, ld: Seq<String>|
                #![trigger spec_private_deliveries(old(self).clients@, id, -1i8, le),
                    spec_message_deliveries(
                        old(self).clients@,
                        -1i8,
                        -1i8,
                        ld,
                        old(self).clients@.len() as int,
                    )]
                {
                    &&& (e@.len() < 0x1000_0000 ==> spec_wrap_post(e@, le))
                    &&& spec_wrap_post("Done."@, ld)
                    &&& sent_view(final(self).outbox@) == sent_view(old(self).outbox@)
                        + spec_private_deliveries(old(self).clients@, id, -1i8, le)
                        + spec_message_deliveries(
                        old(self).clients@,
                        -1i8,
                        -1i8,
                        ld,
                        old(self).clients@.len() as int,
                    )
                },
            result is Ok ==> exists|ld: Seq<String>|
                spec_wrap_post("Done."@, ld) && sent_view(final(self).outbox@) == sent_view(
                    old(self).outbox@,
                ) + #[trigger] spec_message_deliveries(
                    old(self).clients@,
                    -1i8,
                    -1i8,
                    ld,
                    old(self).clients@.len() as int,
                ),
    {
        proof {
            reveal_strlit("Done.");
        }
        let mut err_sent = false;
        let ghost pre = sent_view(self.outbox@);
        let ghost n0 = self.clients@.len() as int;
        match &result {
            Ok(_) => {},
            Err(e) => {
                let elen = e.as_str().unicode_len();
                self.send_message_checked(-1, id, e.as_str());
                proof {
                    if elen >= 0x1000_0000 {
                        assert(sent_view(self.outbox@) =~= pre + spec_private_deliveries(
                            old(self).clients@,
                            id,
                            -1i8,
                            Seq::<String>::empty(),
                        ));
                    }
                }
            },
        }
        let ghost mid = sent_view(self.outbox@);
        self.broadcast_message_checked(-1, "Done.");
        proof {
            if result is Err {
                let e = result->Err_0;
                let le = choose|le: Seq<String>|
                    (e@.len() < 0x1000_0000 ==> spec_wrap_post(e@, le)) && mid == pre
                        + #[trigger] spec_private_deliveries(old(self).clients@, id, -1i8, le);
                let ld = choose|ld: Seq<String>|
                    spec_wrap_post("Done."@, ld) && sent_view(self.outbox@) == mid
                        + #[trigger] spec_message_deliveries(
                        old(self).clients@,
                        -1i8,
                        -1i8,
                        ld,
                        n0,
                    );
                assert(sent_view(self.outbox@) =~= pre + spec_private_deliveries(
                    old(self).clients@,
                    id,
                    -1i8,
                    le,
                ) + spec_message_deliveries(old(self).clients@, -1i8, -1i8, ld, n0));
            }
        }
    }

    /// Finish the reload command after the caller read the configuration
    /// file: adopt it, sweep out newly banned clients and confirm, or
    /// report why it could not be adopted.
    pub fn finish_reload(&mut self, id: i8, result: Result<Config, String>)
        requires
            old(self).inv(),
        ensures
            final(self).inv(),
            final(self).level == old(self).level,
            result matches Ok(config) ==> (config.max_clients <= 127 ==> {
                &&& final(self).config == config
                &&& (forall|i: int|
                    0 <= i < final(self).clients@.len()
                        ==> ((#[trigger] final(self).clients@[i]) matches Some(c)
                        ==> !Server::spec_banned_by(&config, c)))
                &&& (forall|i: int|
                    0 <= i < old(self).clients@.len() ==> ((#[trigger] old(self).clients@[i])
                        matches Some(c) ==> (!Server::spec_banned_by(&config, c)
                        ==> final(self).clients@[i] == Some(c))))
            }),
            result matches Ok(config) ==> (config.max_clients > 127 ==> final(self).config
                == old(self).config && final(self).clients == old(self).clients),
            result is Err ==> final(self).config == old(self).config && final(self).clients
                == old(self).clients && final(self).client_count == old(self).client_count,
    {
        match result {
            Ok(config) => {
                if config.max_clients <= 127 {
                    self.reload_config(config);
                    self.send_message_checked(-1, id, "Configuration file was reloaded");
                } else {
                    self.send_message_checked(
                        -1,
                        id,
                        "Could not reload configuration file: too many player slots",
                    );
                }
            },
            Err(e) => {
                let mut m = String::from_str("Could not reload configuration file: ");
                m.append(e.as_str());
                self.send_message_checked(-1, id, m.as_str());
            },
        }
    }
}

} // verus!
