//! A check at run time that the registry is consistent, for callers that
//! cannot rely on proofs.

use vstd::prelude::*;
use vstd::string::*;
use crate::buffer::{MAX_BUFFER_SIZE, MAX_MSG_SIZE};
use crate::client::{Client, ClientType, ClientTypeView};
use crate::connection::{ClientFuture, Stage};
use crate::irc::Channel;
use crate::registry::Core;
use crate::text::{canonical, canonical_name, same_text};

verus! {

/// Whether no number occurs twice in `v`.
pub fn distinct_ids(v: &Vec<u32>) -> (r: bool)
    ensures
        r == (forall|i: int, j: int| 0 <= i < j < v@.len() ==> v@[i] != v@[j]),
{
    let n: usize = v.len();
    let mut j: usize = 0;
    while j < n
        invariant
            j <= n,
            n == v@.len(),
            forall|a: int, b: int| 0 <= a < b < j ==> v@[a] != v@[b],
        decreases n - j,
    {
        let mut i: usize = 0;
        while i < j
            invariant
                i <= j < n,
                n == v@.len(),
                forall|a: int| 0 <= a < i ==> v@[a] != v@[j as int],
            decreases j - i,
        {
            if v[i] == v[j] {
                return false;
            }
            i += 1;
        }
        j += 1;
    }
    true
}

/// Whether no text occurs twice in `v`.
pub fn distinct_names(v: &Vec<String>) -> (r: bool)
    ensures
        r == (forall|i: int, j: int| 0 <= i < j < v@.len() ==> v@[i]@ != v@[j]@),
{
    let n: usize = v.len();
    let mut j: usize = 0;
    while j < n
        invariant
            j <= n,
            n == v@.len(),
            forall|a: int, b: int| 0 <= a < b < j ==> v@[a]@ != v@[b]@,
        decreases n - j,
    {
        let mut i: usize = 0;
        while i < j
            invariant
                i <= j < n,
                n == v@.len(),
                forall|a: int| 0 <= a < i ==> v@[a]@ != v@[j as int]@,
            decreases j - i,
        {
            if same_text(v[i].as_str(), v[j].as_str()) {
                return false;
            }
            i += 1;
        }
        j += 1;
    }
    true
}

impl Client {
    /// Whether the buffers are in order and have the capacities of their
    /// kinds.
    pub fn check(&self) -> (r: bool)
        ensures
            r == self.wf(),
            r ==> self@.wf(),
    {
        self.input.index <= self.input.buf.len() && self.output.index <= self.output.buf.len()
            && self.input.buf.len() == MAX_MSG_SIZE && self.output.buf.len() == MAX_BUFFER_SIZE
    }
}

impl Channel {
    /// Whether no two members share a nick.
    pub fn check(&self) -> (r: bool)
        ensures
            r == self@.members_distinct(),
    {
        let mut keys: Vec<String> = Vec::new();
        let mut i: usize = 0;
        while i < self.users.len()
            invariant
                i <= self.users.len(),
                keys@.len() == i,
                forall|k: int| 0 <= k < i ==> (#[trigger] keys@[k])@ == self@.users[k].nick,
            decreases self.users.len() - i,
        {
            keys.push(self.users[i].nick.clone());
            i += 1;
        }
        let r = distinct_names(&keys);
        proof {
            if r {
                assert forall|a: int, b: int| 0 <= a < b < self@.users.len() implies #[trigger] self@.users[a].nick
                    != #[trigger] self@.users[b].nick by {
                    assert(keys@[a]@ != keys@[b]@);
                }
            } else {
                let (a, b) = choose|a: int, b: int| 0 <= a < b < keys@.len() && keys@[a]@ == keys@[b]@;
                assert(self@.users[a].nick == self@.users[b].nick);
            }
        }
        r
    }
}

impl ClientFuture {
    /// Whether the task is in order.
    pub fn check(&self) -> (r: bool)
        ensures
            r == self@.wf(),
    {
        match self.stage {
            Stage::Flushing => self.done <= self.scratch.len(),
            Stage::Reading => self.scratch.len() < MAX_MSG_SIZE,
            _ => true,
        }
    }
}

impl Core {
    fn knows_user(&self, id: u32) -> (r: bool)
        ensures
            r == self@.has_user(id),
    {
        let mut i: usize = 0;
        while i < self.users.len()
            invariant
                i <= self.users.len(),
                forall|k: int| 0 <= k < i ==> self@.users[k].id != id,
            decreases self.users.len() - i,
        {
            if self.users[i].id == id {
                assert(self@.users[i as int].id == id);
                return true;
            }
            i += 1;
        }
        false
    }

    fn knows_user_client(&self, uid: u32) -> (r: bool)
        ensures
            r == self@.has_user_client(uid),
    {
        let mut i: usize = 0;
        while i < self.clients.map.len()
            invariant
                i <= self.clients.map.len(),
                forall|k: int|
                    0 <= k < i ==> !(#[trigger] self@.clients[k].id == uid && self@.clients[k].client_type
                        == ClientTypeView::User(uid)),
            decreases self.clients.map.len() - i,
        {
            let is_it = match &self.clients.map[i].client_type {
                ClientType::User(u) => *u == uid,
                _ => false,
            };
            if self.clients.map[i].id == uid && is_it {
                assert(self@.clients[i as int].id == uid);
                return true;
            }
            i += 1;
        }
        false
    }

    fn knows_nick(&self, key: &str) -> (r: bool)
        ensures
            r == self@.nick_taken(key@),
    {
        let mut i: usize = 0;
        while i < self.nicks.len()
            invariant
                i <= self.nicks.len(),
                forall|k: int| 0 <= k < i ==> self@.nicks[k].nick != key@,
            decreases self.nicks.len() - i,
        {
            if same_text(self.nicks[i].nick.as_str(), key) {
                assert(self@.nicks[i as int].nick == key@);
                return true;
            }
            i += 1;
        }
        false
    }

    fn check_clients(&self) -> (r: bool)
        ensures
            r == (self@.clients_ok() && forall|i: int|
                0 <= i < self.clients.map@.len() ==> (#[trigger] self.clients.map@[i]).wf()),
    {
        let ids = self.client_ids();
        if !distinct_ids(&ids) {
            proof {
                let (a, b) = choose|a: int, b: int| 0 <= a < b < ids@.len() && ids@[a] == ids@[b];
                assert(self@.clients[a].id == self@.clients[b].id);
            }
            return false;
        }
        proof {
            assert forall|a: int, b: int| 0 <= a < b < self@.clients.len() implies #[trigger] self@.clients[a].id
                != #[trigger] self@.clients[b].id by {
                assert(ids@[a] != ids@[b]);
            }
        }
        let mut i: usize = 0;
        while i < self.clients.map.len()
            invariant
                i <= self.clients.map.len(),
                forall|k: int| 0 <= k < i ==> (#[trigger] self@.clients[k]).id < self@.next_id,
                forall|k: int| 0 <= k < i ==> (#[trigger] self@.clients[k]).wf(),
                forall|k: int| 0 <= k < i ==> (#[trigger] self.clients.map@[k]).wf(),
            decreases self.clients.map.len() - i,
        {
            if self.clients.map[i].id >= self.clients.next_id {
                assert(!(self@.clients[i as int].id < self@.next_id));
                return false;
            }
            if !self.clients.map[i].check() {
                assert(!self.clients.map@[i as int].wf());
                return false;
            }
            i += 1;
        }
        true
    }

    fn check_users(&self) -> (r: bool)
        ensures
            r == (self@.users_ok() && self@.nicks_ok()),
    {
        if self.nicks.len() != self.users.len() {
            return false;
        }
        let n: usize = self.users.len();
        let mut ids: Vec<u32> = Vec::new();
        let mut keys: Vec<String> = Vec::new();
        let mut i: usize = 0;
        while i < n
            invariant
                i <= n,
                n == self.users@.len(),
                n == self.nicks@.len(),
                ids@.len() == i,
                keys@.len() == i,
                forall|k: int| 0 <= k < i ==> #[trigger] ids@[k] == self@.users[k].id,
                forall|k: int| 0 <= k < i ==> (#[trigger] keys@[k])@ == self@.nicks[k].nick,
                forall|k: int|
                    0 <= k < i ==> (#[trigger] self@.nicks[k]).user_id == self@.users[k].id && self@.nicks[k].nick
                        == canonical(self@.users[k].nick),
            decreases n - i,
        {
            let key = canonical_name(self.users[i].nick.as_str());
            if self.nicks[i].user_id != self.users[i].id || !same_text(
                self.nicks[i].nick.as_str(),
                key.as_str(),
            ) {
                assert(!(self@.nicks[i as int].user_id == self@.users[i as int].id && self@.nicks[i as int].nick
                    == canonical(self@.users[i as int].nick)));
                return false;
            }
            ids.push(self.users[i].id);
            keys.push(self.nicks[i].nick.clone());
            i += 1;
        }
        if !distinct_ids(&ids) {
            proof {
                let (a, b) = choose|a: int, b: int| 0 <= a < b < ids@.len() && ids@[a] == ids@[b];
                assert(self@.users[a].id == self@.users[b].id);
            }
            return false;
        }
        if !distinct_names(&keys) {
            proof {
                let (a, b) = choose|a: int, b: int| 0 <= a < b < keys@.len() && keys@[a]@ == keys@[b]@;
                assert(self@.nicks[a].nick == self@.nicks[b].nick);
            }
            return false;
        }
        proof {
            assert forall|a: int, b: int| 0 <= a < b < self@.users.len() implies #[trigger] self@.users[a].id
                != #[trigger] self@.users[b].id by {
                assert(ids@[a] != ids@[b]);
            }
            assert forall|a: int, b: int| 0 <= a < b < self@.nicks.len() implies #[trigger] self@.nicks[a].nick
                != #[trigger] self@.nicks[b].nick by {
                assert(keys@[a]@ != keys@[b]@);
            }
        }
        true
    }

    fn check_links(&self) -> (r: bool)
        ensures
            r == self@.links_ok(),
    {
        let mut i: usize = 0;
        while i < self.clients.map.len()
            invariant
                i <= self.clients.map.len(),
                forall|k: int|
                    0 <= k < i ==> match (#[trigger] self@.clients[k]).client_type {
                        ClientTypeView::User(uid) => uid == self@.clients[k].id && self@.has_user(uid),
                        _ => true,
                    },
            decreases self.clients.map.len() - i,
        {
            match &self.clients.map[i].client_type {
                ClientType::User(uid) => {
                    if *uid != self.clients.map[i].id || !self.knows_user(*uid) {
                        proof {
                            let c = self@.clients[i as int];
                            assert(c.client_type == ClientTypeView::User(*uid));
                            assert(!(*uid == c.id && self@.has_user(*uid)));
                        }
                        return false;
                    }
                },
                _ => {},
            }
            i += 1;
        }
        let mut j: usize = 0;
        while j < self.users.len()
            invariant
                j <= self.users.len(),
                forall|k: int|
                    0 <= k < self@.clients.len() ==> match (#[trigger] self@.clients[k]).client_type {
                        ClientTypeView::User(uid) => uid == self@.clients[k].id && self@.has_user(uid),
                        _ => true,
                    },
                forall|k: int| 0 <= k < j ==> self@.has_user_client((#[trigger] self@.users[k]).id),
            decreases self.users.len() - j,
        {
            if !self.knows_user_client(self.users[j].id) {
                assert(!self@.has_user_client(self@.users[j as int].id));
                return false;
            }
            j += 1;
        }
        true
    }

    fn check_channels(&self) -> (r: bool)
        ensures
            r == self@.channels_ok(),
    {
        let n: usize = self.channels.len();
        let mut names: Vec<String> = Vec::new();
        let mut c: usize = 0;
        while c < n
            invariant
                c <= n,
                n == self.channels@.len(),
                names@.len() == c,
                forall|k: int| 0 <= k < c ==> (#[trigger] names@[k])@ == self@.channels[k].name,
                forall|k: int| 0 <= k < c ==> (#[trigger] self@.channels[k]).members_distinct(),
                forall|k: int, m: int|
                    0 <= k < c && 0 <= m < self@.channels[k].users.len() ==> self@.nick_taken(
                        #[trigger] self@.channels[k].users[m].nick,
                    ),
            decreases n - c,
        {
            if !self.channels[c].check() {
                assert(!self@.channels[c as int].members_distinct());
                return false;
            }
            let members: usize = self.channels[c].users.len();
            let mut m: usize = 0;
            while m < members
                invariant
                    c < n,
                    n == self.channels@.len(),
                    m <= members,
                    members == self@.channels[c as int].users.len(),
                    forall|k: int|
                        0 <= k < m ==> self@.nick_taken(#[trigger] self@.channels[c as int].users[k].nick),
                decreases members - m,
            {
                if !self.knows_nick(self.channels[c].users[m].nick.as_str()) {
                    assert(!self@.nick_taken(self@.channels[c as int].users[m as int].nick));
                    return false;
                }
                m += 1;
            }
            names.push(self.channels[c].name.clone());
            c += 1;
        }
        let r = distinct_names(&names);
        proof {
            if r {
                assert forall|a: int, b: int| 0 <= a < b < self@.channels.len() implies #[trigger] self@.channels[a].name
                    != #[trigger] self@.channels[b].name by {
                    assert(names@[a]@ != names@[b]@);
                }
            } else {
                let (a, b) = choose|a: int, b: int| 0 <= a < b < names@.len() && names@[a]@ == names@[b]@;
                assert(self@.channels[a].name == self@.channels[b].name);
            }
        }
        r
    }

    /// Whether the registry is consistent.
    pub fn check(&self) -> (r: bool)
        ensures
            r == self.wf(),
    {
        self.check_clients() && self.check_users() && self.check_links() && self.check_channels()
    }
}

} // verus!
