//! The four persisted user lists: operators, banned, muted and
//! restricted users, each a set of usernames and a set of addresses.

use vstd::prelude::*;

verus! {

/// Compare two strings by their characters.
pub fn str_eq(a: &str, b: &str) -> (r: bool)
    ensures
        r == (a@ == b@),
{
    let x = a.to_owned();
    let y = b.to_owned();
    x == y
}

/// One named user list. The caller persists it; the list itself only
/// answers and updates membership.
pub struct UserList {
    pub usernames: Vec<String>,
    pub ips: Vec<String>,
    pub file: String,
}

/// Removal of every string equal to `n`.
pub open spec fn spec_remove_str(s: Seq<String>, n: Seq<char>) -> Seq<String>
    decreases s.len(),
{
    if s.len() == 0 {
        s
    } else if s[0]@ == n {
        spec_remove_str(s.drop_first(), n)
    } else {
        seq![s[0]] + spec_remove_str(s.drop_first(), n)
    }
}

proof fn lemma_remove_str_snoc(s: Seq<String>, x: String, n: Seq<char>)
    ensures
        spec_remove_str(s.push(x), n) == spec_remove_str(s, n) + if x@ == n {
            Seq::<String>::empty()
        } else {
            seq![x]
        },
    decreases s.len(),
{
    if s.len() == 0 {
        assert(s.push(x)[0] == x);
        assert(s.push(x).drop_first() =~= Seq::<String>::empty());
        if x@ == n {
            assert(spec_remove_str(s, n) + Seq::<String>::empty() =~= Seq::<String>::empty());
        } else {
            assert(spec_remove_str(s, n) + seq![x] =~= seq![x]);
        }
    } else {
        assert(s.push(x)[0] == s[0]);
        assert(s.push(x).drop_first() =~= s.drop_first().push(x));
        lemma_remove_str_snoc(s.drop_first(), x, n);
        if s[0]@ != n {
            assert(seq![s[0]] + (spec_remove_str(s.drop_first(), n) + if x@ == n {
                Seq::<String>::empty()
            } else {
                seq![x]
            }) =~= (seq![s[0]] + spec_remove_str(s.drop_first(), n)) + if x@ == n {
                Seq::<String>::empty()
            } else {
                seq![x]
            });
        }
    }
}

impl UserList {
    /// Whether some entry of a list equals the name.
    pub open spec fn spec_has(s: Seq<String>, n: Seq<char>) -> bool {
        exists|i: int| 0 <= i < s.len() && (#[trigger] s[i])@ == n
    }

    pub open spec fn spec_contains_username(&self, n: Seq<char>) -> bool {
        UserList::spec_has(self.usernames@, n)
    }

    pub open spec fn spec_contains_ip(&self, n: Seq<char>) -> bool {
        UserList::spec_has(self.ips@, n)
    }

    /// An empty list bound to a file name.
    pub fn new(file: String) -> (r: UserList)
        ensures
            r.usernames@.len() == 0,
            r.ips@.len() == 0,
            r.file@ == file@,
    {
        UserList { usernames: Vec::new(), ips: Vec::new(), file }
    }

    fn vec_has(s: &Vec<String>, n: &str) -> (r: bool)
        ensures
            r == UserList::spec_has(s@, n@),
    {
        let mut i: usize = 0;
        while i < s.len()
            invariant
                0 <= i <= s@.len(),
                forall|j: int| 0 <= j < i ==> (#[trigger] s@[j])@ != n@,
            decreases s@.len() - i,
        {
            if str_eq(s[i].as_str(), n) {
                return true;
            }
            i = i + 1;
        }
        false
    }

    pub fn contains_username(&self, username: &String) -> (r: bool)
        ensures
            r == self.spec_contains_username(username@),
    {
        UserList::vec_has(&self.usernames, username.as_str())
    }

    pub fn contains_ip(&self, ip: &String) -> (r: bool)
        ensures
            r == self.spec_contains_ip(ip@),
    {
        UserList::vec_has(&self.ips, ip.as_str())
    }

    /// Membership by either the username or the address.
    pub fn contains(&self, username: &String, ip: &String) -> (r: bool)
        ensures
            r == (self.spec_contains_ip(ip@) || self.spec_contains_username(username@)),
    {
        self.contains_ip(ip) || self.contains_username(username)
    }

    pub fn add_username(&mut self, username: String)
        ensures
            final(self).ips == old(self).ips,
            final(self).file == old(self).file,
            old(self).spec_contains_username(username@) ==> final(self).usernames
                == old(self).usernames,
            !old(self).spec_contains_username(username@) ==> final(self).usernames@ == old(
                self,
            ).usernames@.push(username),
            final(self).spec_contains_username(username@),
    {
        if !self.contains_username(&username) {
            let ghost n = username@;
            self.usernames.push(username);
            proof {
                assert(self.usernames@[self.usernames@.len() - 1]@ == n);
            }
        }
    }

    pub fn add_ip(&mut self, ip: String)
        ensures
            final(self).usernames == old(self).usernames,
            final(self).file == old(self).file,
            old(self).spec_contains_ip(ip@) ==> final(self).ips == old(self).ips,
            !old(self).spec_contains_ip(ip@) ==> final(self).ips@ == old(self).ips@.push(ip),
            final(self).spec_contains_ip(ip@),
    {
        if !self.contains_ip(&ip) {
            let ghost n = ip@;
            self.ips.push(ip);
            proof {
                assert(self.ips@[self.ips@.len() - 1]@ == n);
            }
        }
    }

    pub fn remove_username(&mut self, username: &String) -> (r: bool)
        ensures
            final(self).ips == old(self).ips,
            final(self).file == old(self).file,
            r == old(self).spec_contains_username(username@),
            final(self).usernames@ == spec_remove_str(old(self).usernames@, username@),
            !final(self).spec_contains_username(username@),
    {
        let had = self.contains_username(username);
        let mut kept: Vec<String> = Vec::new();
        let mut i: usize = 0;
        while i < self.usernames.len()
            invariant
                0 <= i <= self.usernames@.len(),
                kept@ == spec_remove_str(self.usernames@.subrange(0, i as int), username@),
                forall|j: int| 0 <= j < kept@.len() ==> (#[trigger] kept@[j])@ != username@,
                *self == *old(self),
            decreases self.usernames@.len() - i,
        {
            let ghost pre = self.usernames@.subrange(0, i as int);
            let e = self.usernames[i].clone();
            if !str_eq(e.as_str(), username.as_str()) {
                kept.push(e);
            }
            proof {
                lemma_remove_str_snoc(pre, self.usernames@[i as int], username@);
                assert(pre.push(self.usernames@[i as int]) =~= self.usernames@.subrange(
                    0,
                    i + 1,
                ));
            }
            i = i + 1;
        }
        proof {
            assert(self.usernames@.subrange(0, self.usernames@.len() as int)
                =~= self.usernames@);
        }
        self.usernames = kept;
        if had {
            return true;
        }
        false
    }

    pub fn remove_ip(&mut self, ip: &String) -> (r: bool)
        ensures
            final(self).usernames == old(self).usernames,
            final(self).file == old(self).file,
            r == old(self).spec_contains_ip(ip@),
            final(self).ips@ == spec_remove_str(old(self).ips@, ip@),
            !final(self).spec_contains_ip(ip@),
    {
        let had = self.contains_ip(ip);
        let mut kept: Vec<String> = Vec::new();
        let mut i: usize = 0;
        while i < self.ips.len()
            invariant
                0 <= i <= self.ips@.len(),
                kept@ == spec_remove_str(self.ips@.subrange(0, i as int), ip@),
                forall|j: int| 0 <= j < kept@.len() ==> (#[trigger] kept@[j])@ != ip@,
                *self == *old(self),
            decreases self.ips@.len() - i,
        {
            let ghost pre = self.ips@.subrange(0, i as int);
            let e = self.ips[i].clone();
            if !str_eq(e.as_str(), ip.as_str()) {
                kept.push(e);
            }
            proof {
                lemma_remove_str_snoc(pre, self.ips@[i as int], ip@);
                assert(pre.push(self.ips@[i as int]) =~= self.ips@.subrange(0, i + 1));
            }
            i = i + 1;
        }
        proof {
            assert(self.ips@.subrange(0, self.ips@.len() as int) =~= self.ips@);
        }
        self.ips = kept;
        if had {
            return true;
        }
        false
    }
}

/// The bundle of the four user lists.
pub struct UserData {
    pub ops: UserList,
    pub banned: UserList,
    pub muted: UserList,
    pub restricted: UserList,
}

impl UserData {
    /// Fresh, empty lists under their standard file names.
    pub fn new() -> (r: UserData)
        ensures
            r.ops.usernames@.len() == 0 && r.ops.ips@.len() == 0,
            r.banned.usernames@.len() == 0 && r.banned.ips@.len() == 0,
            r.muted.usernames@.len() == 0 && r.muted.ips@.len() == 0,
            r.restricted.usernames@.len() == 0 && r.restricted.ips@.len() == 0,
    {
        UserData {
            ops: UserList::new(String::from_str("ops.json")),
            banned: UserList::new(String::from_str("banned.json")),
            muted: UserList::new(String::from_str("muted.json")),
            restricted: UserList::new(String::from_str("restricted.json")),
        }
    }
}

} // verus!
