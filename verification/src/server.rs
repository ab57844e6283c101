//! The shared server state: the client table, the world, the command
//! registry, and every mutation of them. Outgoing packets are recorded
//! in an ordered outbox of `(client id, packet)` deliveries which the
//! connection layer drains into the per-client queues.

use vstd::prelude::*;
use crate::block::{valid_block, spec_place_op_only, spec_destroy_op_only, BlockState};
use crate::chat::{wrap_and_clean, strip, strip_all, wrap_clean_input, has_no_newline};
use crate::client::{Client, ClientMode};
use crate::level::Change;
use vstd::string::StrSliceExecFns;
use crate::command::CommandList;
use crate::config::Config;
use crate::level::Level;
use crate::packet::{Packet, PacketV, spec_rewrite_for, spec_suppressed_for_origin};
use rand::Rng;

verus! {

/// How many table slots hold a client.
pub open spec fn count_clients(s: Seq<Option<Client>>) -> int
    decreases s.len(),
{
    if s.len() == 0 {
        0
    } else {
        count_clients(s.drop_last()) + if s.last() is Some {
            1int
        } else {
            0int
        }
    }
}

pub proof fn lemma_count_clients_update(s: Seq<Option<Client>>, i: int, v: Option<Client>)
    requires
        0 <= i < s.len(),
    ensures
        count_clients(s.update(i, v)) == count_clients(s) + (if v is Some {
            1int
        } else {
            0int
        }) - (if s[i] is Some {
            1int
        } else {
            0int
        }),
    decreases s.len(),
{
    if i == s.len() - 1 {
        assert(s.update(i, v).drop_last() =~= s.drop_last());
        assert(s.update(i, v).last() == v);
    } else {
        assert(s.update(i, v).drop_last() =~= s.drop_last().update(i, v));
        assert(s.update(i, v).last() == s.last());
        lemma_count_clients_update(s.drop_last(), i, v);
    }
}

/// An empty slot keeps the count below the width.
pub proof fn lemma_count_clients_missing(s: Seq<Option<Client>>, i: int)
    requires
        0 <= i < s.len(),
        s[i] is None,
    ensures
        count_clients(s) <= s.len() - 1,
    decreases s.len(),
{
    if i == s.len() - 1 {
        lemma_count_clients_bounds(s.drop_last());
    } else {
        lemma_count_clients_missing(s.drop_last(), i);
    }
}

/// An occupied slot makes the count positive.
pub proof fn lemma_count_clients_pos(s: Seq<Option<Client>>, i: int)
    requires
        0 <= i < s.len(),
        s[i] is Some,
    ensures
        count_clients(s) >= 1,
    decreases s.len(),
{
    if i == s.len() - 1 {
        lemma_count_clients_bounds(s.drop_last());
    } else {
        lemma_count_clients_pos(s.drop_last(), i);
    }
}

pub proof fn lemma_count_clients_bounds(s: Seq<Option<Client>>)
    ensures
        0 <= count_clients(s) <= s.len(),
    decreases s.len(),
{
    if s.len() > 0 {
        lemma_count_clients_bounds(s.drop_last());
    }
}

/// The outbox as deliveries of mathematical packet values.
pub open spec fn sent_view(s: Seq<(i8, Packet)>) -> Seq<(i8, PacketV)> {
    Seq::new(s.len(), |i: int| (s[i].0, s[i].1@))
}

/// What one broadcast hands to the first `n` slots of the client table,
/// in ascending id order: every connected client gets the packet through
/// the self-id rewrite, except the origin when the kind suppresses the
/// echo.
pub open spec fn spec_deliveries(
    clients: Seq<Option<Client>>,
    oid: i8,
    p: PacketV,
    n: int,
) -> Seq<(i8, PacketV)>
    decreases n,
{
    if n <= 0 {
        Seq::empty()
    } else {
        spec_deliveries(clients, oid, p, n - 1) + (match clients[n - 1] {
            Some(_) => if n - 1 == oid && spec_suppressed_for_origin(p) {
                Seq::<(i8, PacketV)>::empty()
            } else {
                seq![((n - 1) as i8, spec_rewrite_for((n - 1) as i8, p))]
            },
            None => Seq::<(i8, PacketV)>::empty(),
        })
    }
}

/// A suppressed kind is never delivered back to its origin.
pub proof fn lemma_broadcast_suppresses_origin(
    clients: Seq<Option<Client>>,
    oid: i8,
    p: PacketV,
    n: int,
)
    requires
        spec_suppressed_for_origin(p),
        n <= 128,
    ensures
        forall|j: int|
            0 <= j < spec_deliveries(clients, oid, p, n).len() ==> (#[trigger] spec_deliveries(
                clients,
                oid,
                p,
                n,
            )[j]).0 != oid,
    decreases n,
{
    if n > 0 {
        lemma_broadcast_suppresses_origin(clients, oid, p, n - 1);
        let ds = spec_deliveries(clients, oid, p, n);
        let prev = spec_deliveries(clients, oid, p, n - 1);
        assert forall|j: int| 0 <= j < ds.len() implies (#[trigger] ds[j]).0 != oid by {
            if j < prev.len() {
                assert(ds[j] == prev[j]);
            } else {
                assert(ds[j].0 == (n - 1) as i8);
            }
        }
    }
}

/// Every delivery of one broadcast names an occupied slot below `n`.
pub proof fn lemma_deliveries_ids_below(
    clients: Seq<Option<Client>>,
    oid: i8,
    p: PacketV,
    n: int,
)
    requires
        n <= 128,
    ensures
        forall|j: int|
            0 <= j < spec_deliveries(clients, oid, p, n).len() ==> 0 <= (
            #[trigger] spec_deliveries(clients, oid, p, n)[j]).0 < n,
    decreases n,
{
    if n > 0 {
        lemma_deliveries_ids_below(clients, oid, p, n - 1);
        let ds = spec_deliveries(clients, oid, p, n);
        let prev = spec_deliveries(clients, oid, p, n - 1);
        assert forall|j: int| 0 <= j < ds.len() implies 0 <= (#[trigger] ds[j]).0 < n by {
            if j < prev.len() {
                assert(ds[j] == prev[j]);
            } else {
                assert(ds[j].0 == (n - 1) as i8);
            }
        }
    }
}

/// An unsuppressed kind reaches every connected client exactly once,
/// the origin included, as its self-id rewrite.
pub proof fn lemma_broadcast_delivers_once(
    clients: Seq<Option<Client>>,
    oid: i8,
    p: PacketV,
    n: int,
    cid: i8,
)
    requires
        !spec_suppressed_for_origin(p),
        0 <= cid < n,
        n <= 128,
        clients[cid as int] is Some,
    ensures
        exists|j: int|
            0 <= j < spec_deliveries(clients, oid, p, n).len() && #[trigger] spec_deliveries(
                clients,
                oid,
                p,
                n,
            )[j] == (cid, spec_rewrite_for(cid, p)) && (forall|k: int|
                0 <= k < spec_deliveries(clients, oid, p, n).len() && k != j ==> (
                #[trigger] spec_deliveries(clients, oid, p, n)[k]).0 != cid),
    decreases n,
{
    let ds = spec_deliveries(clients, oid, p, n);
    let prev = spec_deliveries(clients, oid, p, n - 1);
    if cid == n - 1 {
        lemma_deliveries_ids_below(clients, oid, p, n - 1);
        let j = prev.len() as int;
        assert(ds[j] == (cid, spec_rewrite_for(cid, p)));
        assert forall|k: int| 0 <= k < ds.len() && k != j implies (#[trigger] ds[k]).0 != cid by {
            if k < prev.len() {
                assert(ds[k] == prev[k]);
                assert(0 <= prev[k].0 < n - 1);
            }
        }
    } else {
        lemma_broadcast_delivers_once(clients, oid, p, n - 1, cid);
        let j = choose|j: int|
            0 <= j < prev.len() && #[trigger] prev[j] == (cid, spec_rewrite_for(cid, p)) && (
            forall|k: int|
                0 <= k < prev.len() && k != j ==> (#[trigger] prev[k]).0 != cid);
        assert(ds[j] == prev[j]);
        assert forall|k: int| 0 <= k < ds.len() && k != j implies (#[trigger] ds[k]).0 != cid by {
            if k < prev.len() {
                assert(ds[k] == prev[k]);
            } else {
                assert(ds[k].0 == (n - 1) as i8);
            }
        }
    }
}

pub struct Server {
    pub config: Config,
    pub client_count: i8,
    pub clients: Vec<Option<Client>>,
    pub commands: CommandList,
    pub level: Level,
    pub running: bool,
    pub salt: String,
    pub outbox: Vec<(i8, Packet)>,
}

/// Relies on rand's thread_rng and gen_range: some value below the
/// bound; nothing more is known of it.
#[verifier::external_body]
fn random_below(n: usize) -> (r: usize)
    requires
        n > 0,
    ensures
        r < n,
{
    rand::thread_rng().gen_range(0..n)
}

pub open spec fn spec_is_base62(c: char) -> bool {
    ('0' <= c && c <= '9') || ('A' <= c && c <= 'Z') || ('a' <= c && c <= 'z')
}

/// The base-62 alphabet, in digit, upper, lower order.
fn base62_char(i: usize) -> (c: char)
    requires
        i < 62,
    ensures
        spec_is_base62(c),
{
    let table = "0123456789ABCDEFGHIJKLMNOPQRSTUVWXYZabcdefghijklmnopqrstuvwxyz";
    proof {
        reveal_strlit("0123456789ABCDEFGHIJKLMNOPQRSTUVWXYZabcdefghijklmnopqrstuvwxyz");
    }
    table.get_char(i)
}

impl Server {
    /// The table is as wide as the configured player cap, the count
    /// matches the occupied slots, and the world is well formed.
    /// The configured player cap, never negative.
    pub open spec fn cap(&self) -> int {
        if self.config.max_clients >= 0 {
            self.config.max_clients as int
        } else {
            0int
        }
    }

    pub open spec fn inv(&self) -> bool {
        &&& self.cap() <= self.clients@.len() <= 127
        &&& self.client_count == count_clients(self.clients@)
        &&& self.level.wf()
    }

    /// Everything except the client table, the count and the outbox.
    pub open spec fn same_env(&self, other: &Server) -> bool {
        &&& self.config == other.config
        &&& self.commands == other.commands
        &&& self.level == other.level
        &&& self.running == other.running
        &&& self.salt == other.salt
    }

    /// A fresh server around a world: no clients, an empty outbox, and a
    /// 16-character base-62 salt drawn from the process's generator.
    pub fn new(config: Config, level: Level) -> (r: Server)
        requires
            level.wf(),
        ensures
            r.inv(),
            r.client_count == 0,
            r.outbox@.len() == 0,
            r.running,
            r.level == level,
            r.config == config,
            r.salt@.len() == 16,
            forall|i: int| 0 <= i < 16 ==> spec_is_base62(#[trigger] r.salt@[i]),
            crate::command::spec_standard_registry(r.commands.commands@),
            forall|i: int| 0 <= i < r.clients@.len() ==> r.clients@[i] is None,
    {
        let mut salt = String::new();
        let mut k: usize = 0;
        while k < 16
            invariant
                0 <= k <= 16,
                salt@.len() == k,
                forall|i: int| 0 <= i < k ==> spec_is_base62(#[trigger] salt@[i]),
            decreases 16 - k,
        {
            let c = base62_char(random_below(62));
            crate::strutil::push_char(&mut salt, c);
            k = k + 1;
        }
        let mut clients: Vec<Option<Client>> = Vec::new();
        let cap: usize = if config.max_clients >= 0 {
            config.max_clients as usize
        } else {
            0
        };
        let mut i: usize = 0;
        while i < cap
            invariant
                0 <= i <= cap,
                clients@.len() == i,
                count_clients(clients@) == 0,
                forall|j: int| 0 <= j < i ==> clients@[j] is None,
            decreases cap - i,
        {
            let ghost pre = clients@;
            clients.push(None);
            proof {
                assert(clients@.drop_last() =~= pre);
            }
            i = i + 1;
        }
        Server {
            config,
            client_count: 0,
            clients,
            commands: CommandList::new(),
            level,
            running: true,
            salt,
            outbox: Vec::new(),
        }
    }

    /// The smallest free client id under the configured cap, if any.
    pub fn first_free_space(&self) -> (r: Option<i8>)
        requires
            self.inv(),
        ensures
            r matches Some(id) ==> 0 <= id < self.cap() && self.clients@[id as int] is None && (
            forall|j: int| 0 <= j < id ==> self.clients@[j] is Some),
            r is None ==> forall|j: int| 0 <= j < self.cap() ==> self.clients@[j] is Some,
    {
        let cap: usize = if self.config.max_clients >= 0 {
            self.config.max_clients as usize
        } else {
            0
        };
        let mut i: usize = 0;
        while i < cap
            invariant
                self.inv(),
                cap == self.cap(),
                0 <= i <= cap,
                forall|j: int| 0 <= j < i ==> self.clients@[j] is Some,
            decreases cap - i,
        {
            if self.clients[i].is_none() {
                return Some(i as i8);
            }
            i = i + 1;
        }
        None
    }

    /// The smallest id of a connected client with exactly this name.
    pub fn get_index_from_username(&self, username: &str) -> (r: Option<i8>)
        requires
            self.inv(),
        ensures
            r matches Some(id) ==> 0 <= id < self.clients@.len() && (self.clients@[id as int]
                matches Some(c) && c.username@ == username@) && (forall|j: int|
                0 <= j < id ==> !((#[trigger] self.clients@[j]) matches Some(c) && c.username@
                    == username@)),
            r is None ==> forall|j: int|
                0 <= j < self.clients@.len() ==> !((#[trigger] self.clients@[j]) matches Some(c)
                    && c.username@ == username@),
    {
        let mut i: usize = 0;
        while i < self.clients.len()
            invariant
                self.inv(),
                0 <= i <= self.clients@.len(),
                forall|j: int|
                    0 <= j < i ==> !((#[trigger] self.clients@[j]) matches Some(c) && c.username@
                        == username@),
            decreases self.clients@.len() - i,
        {
            match &self.clients[i] {
                Some(client) => {
                    if crate::userdata::str_eq(client.username.as_str(), username) {
                        proof {
                            assert(self.clients@.len() <= 127);
                        }
                        return Some(i as i8);
                    }
                },
                None => {},
            }
            i = i + 1;
        }
        None
    }

    /// The connected client with exactly this name.
    pub fn get_client_from_username(&self, username: &str) -> (r: Option<&Client>)
        requires
            self.inv(),
        ensures
            r matches Some(c) ==> c.username@ == username@ && (exists|i: int|
                0 <= i < self.clients@.len() && self.clients@[i] == Some(*c)),
            r is None ==> forall|j: int|
                0 <= j < self.clients@.len() ==> !((#[trigger] self.clients@[j]) matches Some(c)
                    && c.username@ == username@),
    {
        let mut i: usize = 0;
        while i < self.clients.len()
            invariant
                self.inv(),
                0 <= i <= self.clients@.len(),
                forall|j: int|
                    0 <= j < i ==> !((#[trigger] self.clients@[j]) matches Some(c) && c.username@
                        == username@),
            decreases self.clients@.len() - i,
        {
            match &self.clients[i] {
                Some(client) => {
                    if crate::userdata::str_eq(client.username.as_str(), username) {
                        proof {
                            assert(self.clients@[i as int] == Some(*client));
                        }
                        return Some(client);
                    }
                },
                None => {},
            }
            i = i + 1;
        }
        None
    }

    /// Hand one packet to one client's queue, rewriting a self-reference
    /// to the protocol's sentinel. A negative id is the console and gets
    /// nothing; an empty slot returns the packet to the caller.
    pub fn send_packet(&mut self, cid: i8, packet: Packet) -> (r: Result<(), Packet>)
        requires
            old(self).inv(),
        ensures
            final(self).inv(),
            final(self).same_env(old(self)),
            final(self).clients == old(self).clients,
            final(self).client_count == old(self).client_count,
            cid < 0 ==> r is Ok && final(self).outbox == old(self).outbox,
            cid >= 0 && cid < old(self).clients@.len() && old(self).clients@[cid as int] is Some
                ==> r is Ok && sent_view(final(self).outbox@) == sent_view(
                old(self).outbox@,
            ).push((cid, spec_rewrite_for(cid, packet@))),
            cid >= 0 && !(cid < old(self).clients@.len() && old(self).clients@[cid as int]
                is Some) ==> final(self).outbox == old(self).outbox && (r matches Err(e) && e@
                == packet@),
    {
        if cid < 0 {
            return Ok(());
        }
        let idx = cid as usize;
        if idx < self.clients.len() {
            if self.clients[idx].is_some() {
                let rewritten = packet.rewrite_for(cid);
                let ghost pre = self.outbox@;
                self.outbox.push((cid, rewritten));
                proof {
                    assert(sent_view(self.outbox@) =~= sent_view(pre).push(
                        (cid, spec_rewrite_for(cid, packet@)),
                    ));
                }
                return Ok(());
            }
        }
        Err(packet)
    }

    /// Broadcast one packet: ascending over the table, through
    /// `send_packet`, skipping the origin for the kinds that suppress
    /// their echo.
    pub fn broadcast_packet(&mut self, oid: i8, packet: Packet)
        requires
            old(self).inv(),
        ensures
            final(self).inv(),
            final(self).same_env(old(self)),
            final(self).clients == old(self).clients,
            final(self).client_count == old(self).client_count,
            sent_view(final(self).outbox@) == sent_view(old(self).outbox@) + spec_deliveries(
                old(self).clients@,
                oid,
                packet@,
                old(self).clients@.len() as int,
            ),
    {
        let ghost pre = sent_view(self.outbox@);
        let n = self.clients.len();
        let mut i: usize = 0;
        while i < n
            invariant
                self.inv(),
                self.same_env(old(self)),
                self.clients == old(self).clients,
                self.client_count == old(self).client_count,
                n == self.clients@.len(),
                0 <= i <= n,
                pre == sent_view(old(self).outbox@),
                sent_view(self.outbox@) == pre + spec_deliveries(
                    self.clients@,
                    oid,
                    packet@,
                    i as int,
                ),
            decreases n - i,
        {
            let cid = i as i8;
            proof {
                assert(self.clients@.len() <= 127);
            }
            if self.clients[i].is_some() {
                let suppressed = packet.suppressed_for_origin();
                if !(oid == cid && suppressed) {
                    let copy = packet.duplicate();
                    let _ = self.send_packet(cid, copy);
                    proof {
                        assert(sent_view(self.outbox@) =~= (pre + spec_deliveries(
                            self.clients@,
                            oid,
                            packet@,
                            i as int,
                        )) + seq![(cid, spec_rewrite_for(cid, packet@))]);
                        assert(pre + spec_deliveries(self.clients@, oid, packet@, i + 1)
                            =~= sent_view(self.outbox@));
                    }
                } else {
                    proof {
                        assert(spec_deliveries(self.clients@, oid, packet@, i + 1)
                            =~= spec_deliveries(self.clients@, oid, packet@, i as int));
                    }
                }
            } else {
                proof {
                    assert(spec_deliveries(self.clients@, oid, packet@, i + 1)
                        =~= spec_deliveries(self.clients@, oid, packet@, i as int));
                }
            }
            i = i + 1;
        }
    }
}

/// What the wrapper promises of its lines.
pub open spec fn spec_wrap_post(msg: Seq<char>, lines: Seq<String>) -> bool {
    &&& forall|k: int| 0 <= k < lines.len() ==> (#[trigger] lines[k])@.len() <= 64
    &&& forall|k: int| 0 <= k < lines.len() ==> has_no_newline((#[trigger] lines[k])@)
    &&& (wrap_clean_input(msg) ==> strip_all(lines) == strip(msg))
}

/// The deliveries of a broadcast chat message, line by line.
pub open spec fn spec_message_deliveries(
    clients: Seq<Option<Client>>,
    oid: i8,
    from: i8,
    lines: Seq<String>,
    n: int,
) -> Seq<(i8, PacketV)>
    decreases lines.len(),
{
    if lines.len() == 0 {
        Seq::empty()
    } else {
        spec_deliveries(clients, oid, PacketV::Message { id: from, message: lines[0]@ }, n)
            + spec_message_deliveries(clients, oid, from, lines.drop_first(), n)
    }
}

proof fn lemma_message_deliveries_snoc(
    clients: Seq<Option<Client>>,
    oid: i8,
    from: i8,
    lines: Seq<String>,
    x: String,
    n: int,
)
    ensures
        spec_message_deliveries(clients, oid, from, lines.push(x), n) == spec_message_deliveries(
            clients,
            oid,
            from,
            lines,
            n,
        ) + spec_deliveries(clients, oid, PacketV::Message { id: from, message: x@ }, n),
    decreases lines.len(),
{
    if lines.len() == 0 {
        assert(lines.push(x)[0] == x);
        assert(lines.push(x).drop_first() =~= Seq::<String>::empty());
        assert(spec_deliveries(clients, oid, PacketV::Message { id: from, message: x@ }, n)
            + spec_message_deliveries(clients, oid, from, Seq::<String>::empty(), n)
            =~= spec_message_deliveries(clients, oid, from, lines, n) + spec_deliveries(
            clients,
            oid,
            PacketV::Message { id: from, message: x@ },
            n,
        ));
    } else {
        assert(lines.push(x)[0] == lines[0]);
        assert(lines.push(x).drop_first() =~= lines.drop_first().push(x));
        lemma_message_deliveries_snoc(clients, oid, from, lines.drop_first(), x, n);
        assert(spec_deliveries(
            clients,
            oid,
            PacketV::Message { id: from, message: lines[0]@ },
            n,
        ) + (spec_message_deliveries(clients, oid, from, lines.drop_first(), n)
            + spec_deliveries(clients, oid, PacketV::Message { id: from, message: x@ }, n))
            =~= (spec_deliveries(
            clients,
            oid,
            PacketV::Message { id: from, message: lines[0]@ },
            n,
        ) + spec_message_deliveries(clients, oid, from, lines.drop_first(), n))
            + spec_deliveries(clients, oid, PacketV::Message { id: from, message: x@ }, n));
    }
}

/// The deliveries of a private message: one entry per line when the
/// receiver is connected, nothing otherwise.
pub open spec fn spec_private_deliveries(
    clients: Seq<Option<Client>>,
    toid: i8,
    from: i8,
    lines: Seq<String>,
) -> Seq<(i8, PacketV)> {
    if 0 <= toid < clients.len() && clients[toid as int] is Some {
        Seq::new(lines.len(), |i: int| (toid, PacketV::Message { id: from, message: lines[i]@ }))
    } else {
        Seq::empty()
    }
}

/// An exact copy of a client record.
fn clone_client(c: &Client) -> (r: Client)
    ensures
        r == *c,
{
    Client {
        ip: c.ip.clone(),
        username: c.username.clone(),
        x: c.x,
        y: c.y,
        z: c.z,
        pitch: c.pitch,
        yaw: c.yaw,
        mode: c.mode,
    }
}

impl Server {
    /// Wrap a message and broadcast one Message packet per line, from
    /// `id` on the wire, under the user or the system color.
    fn broadcast_log_message(&mut self, id: i8, message: &str)
        requires
            old(self).inv(),
            message@.len() < 0x1000_0000,
        ensures
            final(self).inv(),
            final(self).same_env(old(self)),
            final(self).clients == old(self).clients,
            final(self).client_count == old(self).client_count,
            exists|lines: Seq<String>|
                #[trigger] spec_wrap_post(message@, lines) && sent_view(final(self).outbox@)
                    == sent_view(old(self).outbox@) + spec_message_deliveries(
                    old(self).clients@,
                    id,
                    id,
                    lines,
                    old(self).clients@.len() as int,
                ),
    {
        let lines = wrap_and_clean(message, if id < 0 { 'e' } else { 'f' });
        let ghost pre = sent_view(self.outbox@);
        let ghost n = self.clients@.len() as int;
        let mut k: usize = 0;
        while k < lines.len()
            invariant
                self.inv(),
                self.same_env(old(self)),
                self.clients == old(self).clients,
                self.client_count == old(self).client_count,
                0 <= k <= lines@.len(),
                n == self.clients@.len() as int,
                pre == sent_view(old(self).outbox@),
                sent_view(self.outbox@) == pre + spec_message_deliveries(
                    self.clients@,
                    id,
                    id,
                    lines@.subrange(0, k as int),
                    n,
                ),
            decreases lines@.len() - k,
        {
            let ghost done = lines@.subrange(0, k as int);
            let line = lines[k].clone();
            self.broadcast_packet(id, Packet::Message { id, message: line });
            proof {
                lemma_message_deliveries_snoc(
                    self.clients@,
                    id,
                    id,
                    done,
                    lines@[k as int],
                    n,
                );
                assert(done.push(lines@[k as int]) =~= lines@.subrange(0, k + 1));
            }
            k = k + 1;
        }
        proof {
            assert(lines@.subrange(0, lines@.len() as int) =~= lines@);
            assert(spec_wrap_post(message@, lines@));
        }
    }

    /// Broadcast a player's chat line under their id.
    pub fn broadcast_message(&mut self, id: i8, message: &str)
        requires
            old(self).inv(),
            message@.len() < 0x1000_0000,
        ensures
            final(self).inv(),
            final(self).same_env(old(self)),
            final(self).clients == old(self).clients,
            final(self).client_count == old(self).client_count,
            exists|lines: Seq<String>|
                #[trigger] spec_wrap_post(message@, lines) && sent_view(final(self).outbox@)
                    == sent_view(old(self).outbox@) + spec_message_deliveries(
                    old(self).clients@,
                    id,
                    id,
                    lines,
                    old(self).clients@.len() as int,
                ),
    {
        self.broadcast_log_message(id, message);
    }

    /// Broadcast a server announcement: wrapped under the system color
    /// and carried with the console id; the caller's id only names whom
    /// the announcement concerns.
    #[allow(unused_variables)]
    pub fn broadcast_system_message(&mut self, id: i8, message: &str)
        requires
            old(self).inv(),
            message@.len() < 0x1000_0000,
        ensures
            final(self).inv(),
            final(self).same_env(old(self)),
            final(self).clients == old(self).clients,
            final(self).client_count == old(self).client_count,
            exists|lines: Seq<String>|
                #[trigger] spec_wrap_post(message@, lines) && sent_view(final(self).outbox@)
                    == sent_view(old(self).outbox@) + spec_message_deliveries(
                    old(self).clients@,
                    -1i8,
                    -1i8,
                    lines,
                    old(self).clients@.len() as int,
                ),
    {
        self.broadcast_log_message(-1, message);
    }

    /// Wrap a message and queue it for one client alone.
    pub fn send_message(&mut self, id: i8, toid: i8, message: &str)
        requires
            old(self).inv(),
            message@.len() < 0x1000_0000,
        ensures
            final(self).inv(),
            final(self).same_env(old(self)),
            final(self).clients == old(self).clients,
            final(self).client_count == old(self).client_count,
            exists|lines: Seq<String>|
                #[trigger] spec_wrap_post(message@, lines) && sent_view(final(self).outbox@)
                    == sent_view(old(self).outbox@) + spec_private_deliveries(
                    old(self).clients@,
                    toid,
                    id,
                    lines,
                ),
    {
        let lines = wrap_and_clean(message, if id < 0 { 'e' } else { 'f' });
        let ghost pre = sent_view(self.outbox@);
        let ghost all = spec_private_deliveries(self.clients@, toid, id, lines@);
        let mut k: usize = 0;
        while k < lines.len()
            invariant
                self.inv(),
                self.same_env(old(self)),
                self.clients == old(self).clients,
                self.client_count == old(self).client_count,
                0 <= k <= lines@.len(),
                pre == sent_view(old(self).outbox@),
                all == spec_private_deliveries(self.clients@, toid, id, lines@),
                sent_view(self.outbox@) == pre + (if 0 <= toid < self.clients@.len()
                    && self.clients@[toid as int] is Some {
                    all.subrange(0, k as int)
                } else {
                    Seq::<(i8, PacketV)>::empty()
                }),
            decreases lines@.len() - k,
        {
            let line = lines[k].clone();
            let ghost before = sent_view(self.outbox@);
            let res = self.send_packet(toid, Packet::Message { id, message: line });
            proof {
                if 0 <= toid < self.clients@.len() && self.clients@[toid as int] is Some {
                    assert(spec_rewrite_for(toid, PacketV::Message {
                        id,
                        message: lines@[k as int]@,
                    }) == PacketV::Message { id, message: lines@[k as int]@ });
                    assert(before.push((toid, PacketV::Message {
                        id,
                        message: lines@[k as int]@,
                    })) =~= pre + all.subrange(0, k + 1));
                }
            }
            k = k + 1;
        }
        proof {
            if 0 <= toid < self.clients@.len() && self.clients@[toid as int] is Some {
                assert(all.subrange(0, lines@.len() as int) =~= all);
            }
            assert(spec_wrap_post(message@, lines@));
        }
    }

    /// Remove a client: drop the slot, tell everyone else to despawn the
    /// player, and announce the departure.
    pub fn disconnected(&mut self, id: i8)
        requires
            old(self).inv(),
        ensures
            final(self).inv(),
            final(self).same_env(old(self)),
            !(0 <= id < old(self).clients@.len() && old(self).clients@[id as int] is Some)
                ==> *final(self) == *old(self),
            0 <= id < old(self).clients@.len() && old(self).clients@[id as int] is Some ==> {
                &&& final(self).clients@ == old(self).clients@.update(id as int, None)
                &&& final(self).client_count == old(self).client_count - 1
                &&& exists|lines: Seq<String>|
                    ((old(self).clients@[id as int]->0.username@ + " left"@).len() < 0x1000_0000
                        ==> spec_wrap_post(
                        old(self).clients@[id as int]->0.username@ + " left"@,
                        lines,
                    )) && sent_view(final(self).outbox@) == sent_view(old(self).outbox@)
                        + spec_deliveries(
                        old(self).clients@.update(id as int, None),
                        id,
                        PacketV::Despawn { id },
                        old(self).clients@.len() as int,
                    ) + #[trigger] spec_message_deliveries(
                        old(self).clients@.update(id as int, None),
                        -1i8,
                        -1i8,
                        lines,
                        old(self).clients@.len() as int,
                    )
            },
    {
        if id < 0 {
            return ;
        }
        let idx = id as usize;
        if idx >= self.clients.len() {
            return ;
        }
        let username = match &self.clients[idx] {
            Some(c) => c.username.clone(),
            None => {
                return ;
            },
        };
        proof {
            lemma_count_clients_update(self.clients@, id as int, None);
            lemma_count_clients_pos(self.clients@, id as int);
        }
        self.client_count = self.client_count - 1;
        self.clients.set(idx, None);
        self.broadcast_packet(id, Packet::Despawn { id });
        let mut m = username;
        m.append(" left");
        let ghost msg = m@;
        let ghost after_despawn = sent_view(self.outbox@);
        let ghost n0 = self.clients@.len() as int;
        let mlen = m.as_str().unicode_len();
        if mlen < 0x1000_0000 {
            self.broadcast_system_message(id, m.as_str());
            proof {
                let lines = choose|lines: Seq<String>|
                    spec_wrap_post(msg, lines) && sent_view(self.outbox@) == after_despawn
                        + spec_message_deliveries(self.clients@, -1i8, -1i8, lines, n0);
                assert(spec_wrap_post(
                    old(self).clients@[id as int]->0.username@ + " left"@,
                    lines,
                ));
                assert(sent_view(self.outbox@) =~= sent_view(old(self).outbox@)
                    + spec_deliveries(
                    old(self).clients@.update(id as int, None),
                    id,
                    PacketV::Despawn { id },
                    n0,
                ) + spec_message_deliveries(
                    old(self).clients@.update(id as int, None),
                    -1i8,
                    -1i8,
                    lines,
                    n0,
                ));
                assert(self.clients@ == old(self).clients@.update(id as int, None));
                assert(self.client_count == old(self).client_count - 1);
            }
        } else {
            proof {
                assert(spec_message_deliveries(
                    self.clients@,
                    -1i8,
                    -1i8,
                    Seq::<String>::empty(),
                    self.clients@.len() as int,
                ) =~= Seq::<(i8, PacketV)>::empty());
                assert(sent_view(self.outbox@) =~= sent_view(self.outbox@) + Seq::<(
                    i8,
                    PacketV,
                )>::empty());
                assert(sent_view(self.outbox@) =~= sent_view(old(self).outbox@)
                    + spec_deliveries(
                    old(self).clients@.update(id as int, None),
                    id,
                    PacketV::Despawn { id },
                    n0,
                ) + spec_message_deliveries(
                    old(self).clients@.update(id as int, None),
                    -1i8,
                    -1i8,
                    Seq::<String>::empty(),
                    n0,
                ));
                assert(((old(self).clients@[id as int]->0.username@ + " left"@).len()
                    < 0x1000_0000 ==> spec_wrap_post(
                    old(self).clients@[id as int]->0.username@ + " left"@,
                    Seq::<String>::empty(),
                )));
            }
        }
    }

    /// Queue a goodbye for the client, then remove it: the Disconnect
    /// reaches the client's own queue first, then everyone else sees the
    /// despawn and the departure announcement.
    pub fn kick(&mut self, id: i8, reason: String)
        requires
            old(self).inv(),
        ensures
            final(self).inv(),
            final(self).same_env(old(self)),
            !(0 <= id < old(self).clients@.len() && old(self).clients@[id as int] is Some)
                ==> *final(self) == *old(self),
            0 <= id < old(self).clients@.len() && old(self).clients@[id as int] is Some ==> {
                &&& final(self).clients@ == old(self).clients@.update(id as int, None)
                &&& final(self).client_count == old(self).client_count - 1
                &&& exists|lines: Seq<String>|
                    ((old(self).clients@[id as int]->0.username@ + " left"@).len() < 0x1000_0000
                        ==> spec_wrap_post(
                        old(self).clients@[id as int]->0.username@ + " left"@,
                        lines,
                    )) && sent_view(final(self).outbox@) == sent_view(old(self).outbox@).push(
                        (id, PacketV::Disconnect { reason: reason@ }),
                    ) + spec_deliveries(
                        old(self).clients@.update(id as int, None),
                        id,
                        PacketV::Despawn { id },
                        old(self).clients@.len() as int,
                    ) + #[trigger] spec_message_deliveries(
                        old(self).clients@.update(id as int, None),
                        -1i8,
                        -1i8,
                        lines,
                        old(self).clients@.len() as int,
                    )
            },
    {
        let ghost pre = *self;
        let _ = self.send_packet(id, Packet::Disconnect { reason });
        let ghost mid = *self;
        self.disconnected(id);
        proof {
            if 0 <= id < pre.clients@.len() && pre.clients@[id as int] is Some {
                let n0 = pre.clients@.len() as int;
                let updated = pre.clients@.update(id as int, None);
                let lines = choose|lines: Seq<String>|
                    ((mid.clients@[id as int]->0.username@ + " left"@).len() < 0x1000_0000
                        ==> spec_wrap_post(
                        mid.clients@[id as int]->0.username@ + " left"@,
                        lines,
                    )) && sent_view(self.outbox@) == sent_view(mid.outbox@) + spec_deliveries(
                        mid.clients@.update(id as int, None),
                        id,
                        PacketV::Despawn { id },
                        n0,
                    ) + #[trigger] spec_message_deliveries(
                        mid.clients@.update(id as int, None),
                        -1i8,
                        -1i8,
                        lines,
                        n0,
                    );
                assert(sent_view(mid.outbox@) =~= sent_view(pre.outbox@).push(
                    (id, PacketV::Disconnect { reason: reason@ }),
                ));
                assert(sent_view(self.outbox@) =~= sent_view(pre.outbox@).push(
                    (id, PacketV::Disconnect { reason: reason@ }),
                ) + spec_deliveries(updated, id, PacketV::Despawn { id }, n0)
                    + spec_message_deliveries(updated, -1i8, -1i8, lines, n0));
            }
        }
    }
}

/// The Spawn packets an arriving client is handed for the players that
/// are already present, ascending over the table.
pub open spec fn spec_spawn_catalog(
    clients: Seq<Option<Client>>,
    newcomer: i8,
    n: int,
) -> Seq<(i8, PacketV)>
    decreases n,
{
    if n <= 0 {
        Seq::empty()
    } else {
        spec_spawn_catalog(clients, newcomer, n - 1) + (match clients[n - 1] {
            Some(c) => seq![
                (
                    newcomer,
                    PacketV::Spawn {
                        id: (n - 1) as i8,
                        name: c.username@,
                        x: c.x,
                        y: c.y,
                        z: c.z,
                        yaw: c.yaw,
                        pitch: c.pitch,
                    },
                ),
            ],
            None => Seq::<(i8, PacketV)>::empty(),
        })
    }
}

/// Whether a new position component and the stored one both fit the
/// 8-bit delta form.
pub open spec fn spec_delta_fits(new: i16, stored: i16) -> bool {
    -128 <= new <= 127 && -128 <= stored <= 127 && -128 <= new - stored <= 127
}

impl Server {
    /// Register a freshly handshaken client: hand it the players already
    /// present, insert it at the world spawn, announce the join, and
    /// spawn it for everyone.
    pub fn spawn(&mut self, id: i8, ip: String, username: String, mode: ClientMode)
        requires
            old(self).inv(),
            0 <= id < old(self).clients@.len(),
            old(self).clients@[id as int] is None,
            username@.len() < 0x100_0000,
        ensures
            final(self).inv(),
            final(self).same_env(old(self)),
            final(self).client_count == old(self).client_count + 1,
            final(self).clients@ == old(self).clients@.update(
                id as int,
                Some(
                    Client {
                        ip: ip,
                        username: username,
                        x: old(self).level.spawn_x,
                        y: old(self).level.spawn_y,
                        z: old(self).level.spawn_z,
                        yaw: old(self).level.spawn_yaw,
                        pitch: old(self).level.spawn_pitch,
                        mode: mode,
                    },
                ),
            ),
            exists|lines: Seq<String>|
                (#[trigger] lines.len() >= 0) && sent_view(final(self).outbox@) == sent_view(
                    old(self).outbox@,
                ) + spec_spawn_catalog(old(self).clients@, id, old(self).clients@.len() as int)
                    + spec_message_deliveries(
                    final(self).clients@,
                    -1i8,
                    -1i8,
                    lines,
                    old(self).clients@.len() as int,
                ) + spec_deliveries(
                    final(self).clients@,
                    id,
                    PacketV::Spawn {
                        id,
                        name: username@,
                        x: old(self).level.spawn_x,
                        y: old(self).level.spawn_y,
                        z: old(self).level.spawn_z,
                        yaw: old(self).level.spawn_yaw,
                        pitch: old(self).level.spawn_pitch,
                    },
                    old(self).clients@.len() as int,
                ),
    {
        let x = self.level.spawn_x;
        let y = self.level.spawn_y;
        let z = self.level.spawn_z;
        let yaw = self.level.spawn_yaw;
        let pitch = self.level.spawn_pitch;
        let ghost pre = sent_view(self.outbox@);
        let n = self.clients.len();
        let mut i: usize = 0;
        while i < n
            invariant
                self.inv(),
                self.same_env(old(self)),
                self.clients == old(self).clients,
                self.client_count == old(self).client_count,
                n == self.clients@.len(),
                0 <= i <= n,
                pre == sent_view(old(self).outbox@),
                sent_view(self.outbox@) == pre + spec_spawn_catalog(
                    self.clients@,
                    id,
                    i as int,
                ),
            decreases n - i,
        {
            match &self.clients[i] {
                Some(client) => {
                    proof {
                        assert(self.clients@.len() <= 127);
                        assert(self.clients@[i as int] == Some(*client));
                    }
                    let pkt = Packet::Spawn {
                        id: i as i8,
                        name: client.username.clone(),
                        x: client.x,
                        y: client.y,
                        z: client.z,
                        yaw: client.yaw,
                        pitch: client.pitch,
                    };
                    let ghost pv = pkt@;
                    let ghost before = sent_view(self.outbox@);
                    self.outbox.push((id, pkt));
                    proof {
                        let c = self.clients@[i as int]->0;
                        assert(pv == PacketV::Spawn {
                            id: i as i8,
                            name: c.username@,
                            x: c.x,
                            y: c.y,
                            z: c.z,
                            yaw: c.yaw,
                            pitch: c.pitch,
                        });
                        assert(sent_view(self.outbox@) =~= before.push((id, pv)));
                        assert(spec_spawn_catalog(self.clients@, id, i + 1)
                            =~= spec_spawn_catalog(self.clients@, id, i as int).push((id, pv)));
                        assert(sent_view(self.outbox@) =~= pre + spec_spawn_catalog(
                            self.clients@,
                            id,
                            i + 1,
                        ));
                    }
                },
                None => {
                    proof {
                        assert(spec_spawn_catalog(self.clients@, id, i + 1)
                            =~= spec_spawn_catalog(self.clients@, id, i as int));
                    }
                },
            }
            i = i + 1;
        }
        proof {
            lemma_count_clients_update(
                self.clients@,
                id as int,
                Some(
                    Client { ip, username, x, y, z, yaw, pitch, mode },
                ),
            );
            lemma_count_clients_bounds(self.clients@);
            lemma_count_clients_missing(self.clients@, id as int);
        }
        let announced = username.clone();
        self.client_count = self.client_count + 1;
        self.clients.set(
            id as usize,
            Some(Client { ip, username, x, y, z, yaw, pitch, mode }),
        );
        let mut m = announced.clone();
        m.append(" joined");
        let mlen = m.as_str().unicode_len();
        let ghost after_catalog = sent_view(self.outbox@);
        let ghost n0 = old(self).clients@.len() as int;
        let ghost witness_lines: Seq<String>;
        if mlen < 0x1000_0000 {
            self.broadcast_system_message(id, m.as_str());
            proof {
                witness_lines = choose|lines: Seq<String>|
                    spec_wrap_post(m@, lines) && sent_view(self.outbox@) == after_catalog
                        + spec_message_deliveries(self.clients@, -1i8, -1i8, lines, n0);
            }
        } else {
            proof {
                witness_lines = Seq::<String>::empty();
                assert(spec_message_deliveries(self.clients@, -1i8, -1i8, witness_lines, n0)
                    =~= Seq::<(i8, PacketV)>::empty());
                assert(sent_view(self.outbox@) =~= after_catalog + spec_message_deliveries(
                    self.clients@,
                    -1i8,
                    -1i8,
                    witness_lines,
                    n0,
                ));
            }
        }
        let ghost after_msg = sent_view(self.outbox@);
        self.broadcast_packet(
            id,
            Packet::Spawn { id, name: announced, x, y, z, yaw, pitch },
        );
        proof {
            let catalog = spec_spawn_catalog(old(self).clients@, id, n0);
            let msgs_console = spec_message_deliveries(
                self.clients@,
                -1i8,
                -1i8,
                witness_lines,
                n0,
            );
            let spawns = spec_deliveries(
                self.clients@,
                id,
                PacketV::Spawn {
                    id,
                    name: username@,
                    x: old(self).level.spawn_x,
                    y: old(self).level.spawn_y,
                    z: old(self).level.spawn_z,
                    yaw: old(self).level.spawn_yaw,
                    pitch: old(self).level.spawn_pitch,
                },
                n0,
            );
            assert(after_catalog =~= pre + catalog);
            assert(after_msg == after_catalog + msgs_console);
            assert(sent_view(self.outbox@) == after_msg + spawns);
            assert(sent_view(self.outbox@) =~= pre + catalog + msgs_console + spawns);
        }
    }
}

impl Server {
    /// Everything `move_player` promises: the stored client holds
    /// exactly the given position and orientation afterwards, and the
    /// movement packet (if any) went to everyone but the mover.
    pub open spec fn spec_move_player_post(
        a: Server,
        b: Server,
        to_move: i8,
        mover: i8,
        x: i16,
        y: i16,
        z: i16,
        yaw: u8,
        pitch: u8,
    ) -> bool {
        &&& b.inv()
        &&& b.same_env(&a)
        &&& b.client_count == a.client_count
        &&& (!(0 <= to_move < a.clients@.len() && a.clients@[to_move as int] is Some) ==> b == a)
        &&& (0 <= to_move < a.clients@.len() && a.clients@[to_move as int] is Some ==> {
            let c = a.clients@[to_move as int]->0;
            let moved = Client { x, y, z, yaw, pitch, ..c };
            &&& b.clients@ == a.clients@.update(to_move as int, Some(moved))
            &&& sent_view(b.outbox@) == sent_view(a.outbox@) + (match spec_move_packet(
                c,
                to_move,
                x,
                y,
                z,
                yaw,
                pitch,
            ) {
                Some(p) => spec_deliveries(b.clients@, mover, p, a.clients@.len() as int),
                None => Seq::<(i8, PacketV)>::empty(),
            })
        })
    }
}

/// The broadcast a movement produces, if any: absolute position and
/// look when a delta overflows, otherwise the smallest form that covers
/// what changed.
pub open spec fn spec_move_packet(
    c: Client,
    to_move: i8,
    x: i16,
    y: i16,
    z: i16,
    yaw: u8,
    pitch: u8,
) -> Option<PacketV> {
    let position_changed = c.x != x || c.y != y || c.z != z;
    let rotation_changed = c.yaw != yaw || c.pitch != pitch;
    let fits = spec_delta_fits(x, c.x) && spec_delta_fits(y, c.y) && spec_delta_fits(z, c.z);
    if position_changed {
        if !fits {
            Some(PacketV::SetPosAndLook { id: to_move, x, y, z, yaw, pitch })
        } else if rotation_changed {
            Some(
                PacketV::UpdatePosAndLook {
                    id: to_move,
                    x: (x - c.x) as i8,
                    y: (y - c.y) as i8,
                    z: (z - c.z) as i8,
                    yaw,
                    pitch,
                },
            )
        } else {
            Some(
                PacketV::UpdatePos {
                    id: to_move,
                    x: (x - c.x) as i8,
                    y: (y - c.y) as i8,
                    z: (z - c.z) as i8,
                },
            )
        }
    } else if rotation_changed {
        Some(PacketV::UpdateLook { id: to_move, yaw, pitch })
    } else {
        None
    }
}

impl Server {
    /// Store a player's new position and orientation and broadcast the
    /// movement to everyone else. Reading the stored client afterwards
    /// yields exactly the given values.
    pub fn move_player(
        &mut self,
        to_move: i8,
        mover: i8,
        x: i16,
        y: i16,
        z: i16,
        yaw: u8,
        pitch: u8,
    )
        requires
            old(self).inv(),
        ensures
            Server::spec_move_player_post(
                *old(self),
                *final(self),
                to_move,
                mover,
                x,
                y,
                z,
                yaw,
                pitch,
            ),
    {
        if to_move < 0 {
            return ;
        }
        let idx = to_move as usize;
        if idx >= self.clients.len() {
            return ;
        }
        let c = match &self.clients[idx] {
            Some(c) => clone_client(c),
            None => {
                return ;
            },
        };
        let position_changed = c.x != x || c.y != y || c.z != z;
        let rotation_changed = c.yaw != yaw || c.pitch != pitch;
        let fits_x = -128 <= x && x <= 127 && -128 <= c.x && c.x <= 127 && -128 <= x as i32
            - c.x as i32 && x as i32 - c.x as i32 <= 127;
        let fits_y = -128 <= y && y <= 127 && -128 <= c.y && c.y <= 127 && -128 <= y as i32
            - c.y as i32 && y as i32 - c.y as i32 <= 127;
        let fits_z = -128 <= z && z <= 127 && -128 <= c.z && c.z <= 127 && -128 <= z as i32
            - c.z as i32 && z as i32 - c.z as i32 <= 127;
        let moved = Client {
            ip: c.ip.clone(),
            username: c.username.clone(),
            x,
            y,
            z,
            yaw,
            pitch,
            mode: c.mode,
        };
        proof {
            lemma_count_clients_update(
                self.clients@,
                to_move as int,
                Some(moved),
            );
        }
        self.clients.set(idx, Some(moved));
        if position_changed {
            if !(fits_x && fits_y && fits_z) {
                self.broadcast_packet(
                    mover,
                    Packet::SetPosAndLook { id: to_move, x, y, z, yaw, pitch },
                );
            } else {
                let dx = (x - c.x) as i8;
                let dy = (y - c.y) as i8;
                let dz = (z - c.z) as i8;
                if rotation_changed {
                    self.broadcast_packet(
                        mover,
                        Packet::UpdatePosAndLook { id: to_move, x: dx, y: dy, z: dz, yaw, pitch },
                    );
                } else {
                    self.broadcast_packet(
                        mover,
                        Packet::UpdatePos { id: to_move, x: dx, y: dy, z: dz },
                    );
                }
            }
        } else if rotation_changed {
            self.broadcast_packet(mover, Packet::UpdateLook { id: to_move, yaw, pitch });
        } else {
            proof {
                assert(sent_view(self.outbox@) =~= sent_view(self.outbox@) + Seq::<(
                    i8,
                    PacketV,
                )>::empty());
            }
        }
    }
}

/// The broadcasts of a list of cell changes, one SetBlock each, in list
/// order, with no origin.
pub open spec fn spec_setblock_deliveries(
    clients: Seq<Option<Client>>,
    cs: Seq<Change>,
    n: int,
) -> Seq<(i8, PacketV)>
    decreases cs.len(),
{
    if cs.len() == 0 {
        Seq::empty()
    } else {
        spec_deliveries(
            clients,
            -1i8,
            PacketV::SetBlock { x: cs[0].0, y: cs[0].1, z: cs[0].2, block: cs[0].3 },
            n,
        ) + spec_setblock_deliveries(clients, cs.drop_first(), n)
    }
}

proof fn lemma_setblock_deliveries_snoc(
    clients: Seq<Option<Client>>,
    cs: Seq<Change>,
    c: Change,
    n: int,
)
    ensures
        spec_setblock_deliveries(clients, cs.push(c), n) == spec_setblock_deliveries(
            clients,
            cs,
            n,
        ) + spec_deliveries(
            clients,
            -1i8,
            PacketV::SetBlock { x: c.0, y: c.1, z: c.2, block: c.3 },
            n,
        ),
    decreases cs.len(),
{
    let d = spec_deliveries(
        clients,
        -1i8,
        PacketV::SetBlock { x: c.0, y: c.1, z: c.2, block: c.3 },
        n,
    );
    if cs.len() == 0 {
        assert(cs.push(c)[0] == c);
        assert(cs.push(c).drop_first() =~= Seq::<Change>::empty());
        assert(d + spec_setblock_deliveries(clients, Seq::<Change>::empty(), n)
            =~= spec_setblock_deliveries(clients, cs, n) + d);
    } else {
        assert(cs.push(c)[0] == cs[0]);
        assert(cs.push(c).drop_first() =~= cs.drop_first().push(c));
        lemma_setblock_deliveries_snoc(clients, cs.drop_first(), c, n);
        let d0 = spec_deliveries(
            clients,
            -1i8,
            PacketV::SetBlock { x: cs[0].0, y: cs[0].1, z: cs[0].2, block: cs[0].3 },
            n,
        );
        assert(d0 + (spec_setblock_deliveries(clients, cs.drop_first(), n) + d) =~= (d0
            + spec_setblock_deliveries(clients, cs.drop_first(), n)) + d);
    }
}

/// Whether some change in the list writes the given cell.
pub open spec fn spec_has_cell(cs: Seq<Change>, x: i16, y: i16, z: i16) -> bool {
    exists|j: int|
        0 <= j < cs.len() && (#[trigger] cs[j]).0 == x && cs[j].1 == y && cs[j].2 == z
}

impl Server {
    /// Whether this placement passes the policy: coordinates and block id
    /// valid, the placer unrestricted, and either an operator or a
    /// placement that neither puts an operator-only block nor breaks an
    /// operator-only one.
    pub open spec fn spec_place_allowed(&self, id: i8, x: i16, y: i16, z: i16, b: u8) -> bool {
        &&& self.level.in_bounds(x, y, z)
        &&& valid_block(b)
        &&& {
            let mode = if id < 0 {
                ClientMode::Operator
            } else if 0 <= id < self.clients@.len() && self.clients@[id as int] is Some {
                self.clients@[id as int]->0.mode
            } else {
                ClientMode::Normal
            };
            let restricted = if id < 0 {
                false
            } else if 0 <= id < self.clients@.len() && self.clients@[id as int] is Some {
                self.config.user_data.restricted.spec_contains_ip(
                    self.clients@[id as int]->0.ip@,
                ) || self.config.user_data.restricted.spec_contains_username(
                    self.clients@[id as int]->0.username@,
                )
            } else {
                true
            };
            ((!spec_place_op_only(b) && !spec_destroy_op_only(
                self.level.spec_block(x as int, y as int, z as int),
            )) || mode == ClientMode::Operator) && !restricted
        }
    }

    /// Place or break a block on a player's behalf: run the placement
    /// policy, broadcast every resulting cell change, and, when the
    /// requested cell itself did not change and the placer asked
    /// knowingly, send the placer the cell's real content back.
    /// Everything `set_block` promises: the policy verdict decides
    /// whether the placement ran; an allowed placement applied some
    /// distinct change list and broadcast each cell, a refused or
    /// unchanged-at-the-request aware placement got the cell's real
    /// content echoed back.
    pub open spec fn spec_set_block_post(
        a: Server,
        b: Server,
        id: i8,
        x: i16,
        y: i16,
        z: i16,
        block: u8,
        aware: bool,
    ) -> bool {
        &&& b.inv()
        &&& b.config == a.config
        &&& b.commands == a.commands
        &&& b.running == a.running
        &&& b.salt == a.salt
        &&& b.clients == a.clients
        &&& b.client_count == a.client_count
        &&& b.level.same_frame(&a.level)
        &&& (!a.spec_place_allowed(id, x, y, z, block) ==> b.level == a.level && sent_view(
            b.outbox@,
        ) == sent_view(a.outbox@) + (if aware && a.level.in_bounds(x, y, z) && 0 <= id
            < a.clients@.len() && a.clients@[id as int] is Some {
            seq![
                (
                    id,
                    PacketV::SetBlock {
                        x,
                        y,
                        z,
                        block: a.level.spec_block(x as int, y as int, z as int),
                    },
                ),
            ]
        } else {
            Seq::<(i8, PacketV)>::empty()
        }))
        &&& (a.spec_place_allowed(id, x, y, z, block) ==> exists|cs: Seq<Change>|
            {
                &&& b.level.blocks() == crate::level::spec_apply(
                    a.level.blocks(),
                    a.level.size_x as int,
                    a.level.size_z as int,
                    cs,
                )
                &&& #[trigger] cs.len() >= 1
                &&& crate::level::distinct_cells(cs)
                &&& b.level.changed
                &&& sent_view(b.outbox@) == sent_view(a.outbox@) + spec_setblock_deliveries(
                    a.clients@,
                    cs,
                    a.clients@.len() as int,
                ) + (if !spec_has_cell(cs, x, y, z) && aware && 0 <= id < a.clients@.len()
                    && a.clients@[id as int] is Some {
                    seq![
                        (
                            id,
                            PacketV::SetBlock {
                                x,
                                y,
                                z,
                                block: b.level.spec_block(x as int, y as int, z as int),
                            },
                        ),
                    ]
                } else {
                    Seq::<(i8, PacketV)>::empty()
                })
            })
    }

    pub fn set_block(&mut self, id: i8, x: i16, y: i16, z: i16, block: u8, aware: bool)
        requires
            old(self).inv(),
        ensures
            Server::spec_set_block_post(*old(self), *final(self), id, x, y, z, block, aware),
    {
        let mut place = false;
        let mut place = false;
        if x >= 0 && y >= 0 && z >= 0 && x < self.level.size_x && y < self.level.size_y && z
            < self.level.size_z {
            if block < 50 {
                let mut mode = ClientMode::Normal;
                let mut restricted = true;
                if id < 0 {
                    mode = ClientMode::Operator;
                    restricted = false;
                } else {
                    let idx = id as usize;
                    if idx < self.clients.len() {
                        match &self.clients[idx] {
                            Some(c) => {
                                mode = c.mode;
                                restricted = self.config.user_data.restricted.contains(
                                    &c.username,
                                    &c.ip,
                                );
                            },
                            None => {},
                        }
                    }
                }
                let replaced = self.level.get_block(x, y, z);
                let placed = BlockState::of(block);
                let replaced_state = BlockState::of(replaced);
                if ((!placed.place_op_only && !replaced_state.destroy_op_only) || mode
                    == ClientMode::Operator) && !restricted {
                    place = true;
                }
            }
        }
        proof {
            assert(place == old(self).spec_place_allowed(id, x, y, z, block));
        }
        let mut should_discard = true;
        let ghost mut cs: Seq<Change> = Seq::empty();
        if place {
            let changes = self.level.place_block(x, y, z, block);
            proof {
                cs = changes@;
            }
            let ghost level_after = self.level;
            let ghost pre = sent_view(self.outbox@);
            let ghost n = self.clients@.len() as int;
            let mut k: usize = 0;
            while k < changes.len()
                invariant
                    self.inv(),
                    self.config == old(self).config,
                    self.commands == old(self).commands,
                    self.running == old(self).running,
                    self.salt == old(self).salt,
                    self.clients == old(self).clients,
                    self.client_count == old(self).client_count,
                    self.level == level_after,
                    cs == changes@,
                    n == self.clients@.len() as int,
                    0 <= k <= cs.len(),
                    pre == sent_view(old(self).outbox@),
                    sent_view(self.outbox@) == pre + spec_setblock_deliveries(
                        self.clients@,
                        cs.subrange(0, k as int),
                        n,
                    ),
                    should_discard == !spec_has_cell(cs.subrange(0, k as int), x, y, z),
                decreases cs.len() - k,
            {
                let (cx, cy, cz, cb) = changes[k];
                if should_discard && cx == x && cy == y && cz == z {
                    should_discard = false;
                }
                proof {
                    if !should_discard && !spec_has_cell(cs.subrange(0, k as int), x, y, z) {
                        if cs[k as int].0 == x && cs[k as int].1 == y && cs[k as int].2 == z {
                            assert(spec_has_cell(cs.subrange(0, k + 1), x, y, z)) by {
                                assert(cs.subrange(0, k + 1)[k as int] == cs[k as int]);
                            }
                        }
                    }
                }
                let ghost before = sent_view(self.outbox@);
                self.broadcast_packet(-1, Packet::SetBlock { x: cx, y: cy, z: cz, block: cb });
                proof {
                    lemma_setblock_deliveries_snoc(
                        self.clients@,
                        cs.subrange(0, k as int),
                        cs[k as int],
                        n,
                    );
                    assert(cs.subrange(0, k as int).push(cs[k as int]) =~= cs.subrange(
                        0,
                        k + 1,
                    ));
                    if spec_has_cell(cs.subrange(0, k as int), x, y, z) {
                        let j = choose|j: int|
                            0 <= j < k && (#[trigger] cs.subrange(0, k as int)[j]).0 == x
                                && cs.subrange(0, k as int)[j].1 == y && cs.subrange(
                                0,
                                k as int,
                            )[j].2 == z;
                        assert(cs.subrange(0, k + 1)[j] == cs[j]);
                        assert(spec_has_cell(cs.subrange(0, k + 1), x, y, z));
                    }
                }
                k = k + 1;
            }
            proof {
                assert(cs.subrange(0, cs.len() as int) =~= cs);
            }
        }
        if should_discard && aware {
            if x >= 0 && y >= 0 && z >= 0 && x < self.level.size_x && y < self.level.size_y && z
                < self.level.size_z {
                let cur = self.level.get_block(x, y, z);
                let ghost before = sent_view(self.outbox@);
                let _ = self.send_packet(id, Packet::SetBlock { x, y, z, block: cur });
                proof {
                    if 0 <= id < self.clients@.len() && self.clients@[id as int] is Some {
                        assert(sent_view(self.outbox@) =~= before + seq![
                            (
                                id,
                                PacketV::SetBlock {
                                    x,
                                    y,
                                    z,
                                    block: self.level.spec_block(x as int, y as int, z as int),
                                },
                            ),
                        ]);
                    } else {
                        assert(sent_view(self.outbox@) =~= before + Seq::<(i8, PacketV)>::empty());
                    }
                }
            } else {
                proof {
                    assert(sent_view(self.outbox@) =~= sent_view(self.outbox@) + Seq::<(
                        i8,
                        PacketV,
                    )>::empty());
                }
            }
        } else {
            proof {
                assert(sent_view(self.outbox@) =~= sent_view(self.outbox@) + Seq::<(
                    i8,
                    PacketV,
                )>::empty());
            }
        }
        proof {
            if old(self).spec_place_allowed(id, x, y, z, block) {
                assert(cs.len() >= 1);
            }
        }
    }

    /// Whether the new configuration's ban list names a client.
    pub open spec fn spec_banned_by(config: &Config, c: Client) -> bool {
        config.user_data.banned.spec_contains_ip(c.ip@)
            || config.user_data.banned.spec_contains_username(c.username@)
    }

    /// Swap in a freshly loaded configuration: kick everyone the new ban
    /// list names, widen the client table if the cap grew, then adopt
    /// the configuration.
    pub fn reload_config(&mut self, config: Config)
        requires
            old(self).inv(),
            config.max_clients <= 127,
        ensures
            final(self).inv(),
            final(self).config == config,
            final(self).level == old(self).level,
            forall|i: int|
                0 <= i < final(self).clients@.len() ==> ((#[trigger] final(self).clients@[i])
                    matches Some(c) ==> !Server::spec_banned_by(&config, c)),
            forall|i: int|
                0 <= i < old(self).clients@.len() ==> ((#[trigger] old(self).clients@[i])
                    matches Some(c) ==> (!Server::spec_banned_by(&config, c)
                    ==> final(self).clients@[i] == Some(c))),
    {
        let mut id: usize = 0;
        while id < self.clients.len()
            invariant
                self.inv(),
                self.level == old(self).level,
                self.config == old(self).config,
                self.clients@.len() == old(self).clients@.len(),
                0 <= id <= self.clients@.len(),
                forall|i: int|
                    0 <= i < id ==> ((#[trigger] self.clients@[i]) matches Some(c)
                        ==> !Server::spec_banned_by(&config, c)),
                forall|i: int|
                    0 <= i < old(self).clients@.len() ==> ((#[trigger] old(self).clients@[i])
                        matches Some(c) ==> (!Server::spec_banned_by(&config, c)
                        ==> self.clients@[i] == Some(c))),
                forall|i: int|
                    id <= i < old(self).clients@.len() ==> #[trigger] self.clients@[i] == old(
                        self,
                    ).clients@[i],
            decreases self.clients@.len() - id,
        {
            proof {
                assert(self.clients@.len() <= 127);
            }
            let banned = match &self.clients[id] {
                Some(c) => config.user_data.banned.contains(&c.username, &c.ip),
                None => false,
            };
            if banned {
                self.kick(id as i8, String::from_str("You have been banned."));
            }
            id = id + 1;
        }
        let want: usize = if config.max_clients >= 0 {
            config.max_clients as usize
        } else {
            0
        };
        let ghost swept = self.clients@;
        while self.clients.len() < want
            invariant
                self.inv(),
                self.level == old(self).level,
                self.config == old(self).config,
                want <= 127,
                swept.len() <= self.clients@.len(),
                self.clients@.subrange(0, swept.len() as int) == swept,
                forall|i: int|
                    swept.len() <= i < self.clients@.len() ==> #[trigger] self.clients@[i]
                        is None,
            decreases want - self.clients@.len(),
        {
            let ghost pre = self.clients@;
            self.clients.push(None);
            proof {
                assert(self.clients@.drop_last() =~= pre);
                assert(self.clients@.subrange(0, swept.len() as int) =~= swept);
            }
        }
        proof {
            assert forall|i: int|
                0 <= i < self.clients@.len() implies ((#[trigger] self.clients@[i]) matches Some(
                c,
            ) ==> !Server::spec_banned_by(&config, c)) by {
                if i < swept.len() {
                    assert(self.clients@[i] == swept[i]);
                }
            }
            assert forall|i: int|
                0 <= i < old(self).clients@.len() implies ((#[trigger] old(self).clients@[i])
                    matches Some(c) ==> (!Server::spec_banned_by(&config, c) ==> self.clients@[i]
                    == Some(c))) by {
                if i < swept.len() {
                    assert(self.clients@[i] == swept[i]);
                }
            }
        }
        self.config = config;
    }
}

impl Server {
    /// Send a private message unless it is absurdly long.
    pub fn send_message_checked(&mut self, id: i8, toid: i8, message: &str)
        requires
            old(self).inv(),
        ensures
            final(self).inv(),
            final(self).same_env(old(self)),
            final(self).clients == old(self).clients,
            final(self).client_count == old(self).client_count,
            message@.len() < 0x1000_0000 ==> exists|lines: Seq<String>|
                spec_wrap_post(message@, lines) && sent_view(final(self).outbox@) == sent_view(
                    old(self).outbox@,
                ) + #[trigger] spec_private_deliveries(old(self).clients@, toid, id, lines),
            message@.len() >= 0x1000_0000 ==> final(self).outbox == old(self).outbox,
    {
        let n = message.unicode_len();
        if n < 0x1000_0000 {
            self.send_message(id, toid, message);
        }
    }

    /// Broadcast a player message unless it is absurdly long.
    pub fn broadcast_message_checked(&mut self, id: i8, message: &str)
        requires
            old(self).inv(),
        ensures
            final(self).inv(),
            final(self).same_env(old(self)),
            final(self).clients == old(self).clients,
            final(self).client_count == old(self).client_count,
            message@.len() < 0x1000_0000 ==> exists|lines: Seq<String>|
                spec_wrap_post(message@, lines) && sent_view(final(self).outbox@) == sent_view(
                    old(self).outbox@,
                ) + #[trigger] spec_message_deliveries(
                    old(self).clients@,
                    id,
                    id,
                    lines,
                    old(self).clients@.len() as int,
                ),
            message@.len() >= 0x1000_0000 ==> final(self).outbox == old(self).outbox,
    {
        let n = message.unicode_len();
        if n < 0x1000_0000 {
            self.broadcast_message(id, message);
        }
    }

    /// Broadcast an announcement unless it is absurdly long.
    pub fn broadcast_system_message_checked(&mut self, id: i8, message: &str)
        requires
            old(self).inv(),
        ensures
            final(self).inv(),
            final(self).same_env(old(self)),
            final(self).clients == old(self).clients,
            final(self).client_count == old(self).client_count,
    {
        let n = message.unicode_len();
        if n < 0x1000_0000 {
            self.broadcast_system_message(id, message);
        }
    }
}

} // verus!
