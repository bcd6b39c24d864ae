//! The registry: the tables of clients, nicks, users, channels and servers,
//! and the operations that keep them consistent.

use vstd::prelude::*;
use vstd::string::*;
use crate::client::{Client, ClientType, ClientTypeView, ClientView};
use crate::irc::{ChanUser, ChanUserFlags, ChanUserView, Channel, ChannelView, Host, Server, ServerView, User, UserFlags, UserView};
use crate::model::{not_carried_by, other_than, CoreView, NickView};
use crate::laws::{lemma_allocate_wf, lemma_broadcast_wf, lemma_channel_pos, lemma_client_pos, lemma_insert_wf, lemma_kill_wf, lemma_member_pos, lemma_nick_pos, lemma_register_wf, lemma_rename_wf, lemma_send_to_wf, lemma_set_type_wf, lemma_user_pos, lemma_ensure_channel_wf, lemma_set_handler_wf, lemma_set_input_wf, lemma_set_output_wf, lemma_broadcast_except_wf, lemma_leave_all_wf, lemma_filter_last, lemma_join_wf, lemma_part_wf, lemma_remove_client_clean};
use crate::irc::{ProtoUser};
use futures::task::Task;
use crate::buffer::{drop_front, MAX_MSG_SIZE};
use crate::text::{canonical, canonical_name, same_text, strs_view};

verus! {

/// One entry of the nick table.
pub struct NickEntry {
    /// The canonical nick.
    pub nick: String,
    /// The user that holds it.
    pub user_id: u32,
}

impl View for NickEntry {
    type V = NickView;

    open spec fn view(&self) -> NickView {
        NickView { nick: self.nick@, user_id: self.user_id }
    }
}

/// Views of a sequence of servers.
pub open spec fn servers_view(v: Seq<Server>) -> Seq<ServerView> {
    v.map_values(|sv: Server| sv@)
}

/// The connected clients and the id that the next one gets.
pub struct ClientList {
    pub map: Vec<Client>,
    pub next_id: u32,
}

impl ClientList {
    /// No client, ids start at 0.
    pub fn new() -> (r: ClientList)
        ensures
            r.map@.len() == 0,
            r.next_id == 0,
    {
        ClientList { map: Vec::new(), next_id: 0 }
    }
}

/// The registry. Each table is a vector in the order of arrival, so that
/// fan-out visits clients in a fixed order; that no key occurs twice is
/// part of `wf`.
pub struct Core {
    /// Client id to client.
    pub clients: ClientList,
    /// Canonical nick to user id. Entry `i` is the nick of user `i`.
    pub nicks: Vec<NickEntry>,
    /// User id to user.
    pub users: Vec<User>,
    /// Canonical name to channel.
    pub channels: Vec<Channel>,
    /// The peer servers.
    pub servers: Vec<Server>,
}

impl View for Core {
    type V = CoreView;

    open spec fn view(&self) -> CoreView {
        CoreView {
            clients: self.clients.map@.map_values(|c: Client| c@),
            next_id: self.clients.next_id,
            nicks: self.nicks@.map_values(|e: NickEntry| e@),
            users: self.users@.map_values(|u: User| u@),
            channels: self.channels@.map_values(|ch: Channel| ch@),
            servers: servers_view(self.servers@),
        }
    }
}

/// Why the registry refused a change.
#[derive(Debug, Clone, Copy, PartialEq, Eq, Structural)]
pub enum RegistryError {
    /// No client has that id.
    NoSuchClient,
    /// No user has that id.
    NoSuchUser,
    /// The client is a registered user already.
    AlreadyRegistered,
    /// Another user holds the nick.
    NickInUse,
}

/// Whether `id` occurs in `v`.
pub fn contains_id(v: &Vec<u32>, id: u32) -> (r: bool)
    ensures
        r == v@.contains(id),
{
    let mut i: usize = 0;
    while i < v.len()
        invariant
            i <= v.len(),
            forall|k: int| 0 <= k < i ==> v@[k] != id,
        decreases v.len() - i,
    {
        if v[i] == id {
            return true;
        }
        i += 1;
    }
    false
}

/// The names of `list` other than `key`, in order.
pub fn without_name(list: &Vec<String>, key: &str) -> (r: Vec<String>)
    ensures
        strs_view(r@) == strs_view(list@).filter(other_than(key@)),
{
    let mut out: Vec<String> = Vec::new();
    let mut i: usize = 0;
    proof {
        assert(strs_view(out@) =~= Seq::<Seq<char>>::empty());
        assert(strs_view(list@).take(0) =~= Seq::<Seq<char>>::empty());
        lemma_filter_last(strs_view(list@).take(0), other_than(key@));
    }
    while i < list.len()
        invariant
            i <= list.len(),
            strs_view(out@) == strs_view(list@).take(i as int).filter(other_than(key@)),
        decreases list.len() - i,
    {
        let ghost before = strs_view(out@);
        proof {
            let t = strs_view(list@).take(i + 1);
            assert(t.drop_last() =~= strs_view(list@).take(i as int));
            assert(t.last() == list@[i as int]@);
        }
        if !same_text(list[i].as_str(), key) {
            out.push(list[i].clone());
            proof {
                assert(strs_view(out@) =~= before.push(list@[i as int]@));
            }
        }
        proof {
            let t = strs_view(list@).take(i + 1);
            let f = other_than(key@);
            assert(f(t.last()) == (list@[i as int]@ != key@));
            lemma_filter_last(t, f);
        }
        i += 1;
    }
    proof {
        assert(strs_view(list@).take(list.len() as int) =~= strs_view(list@));
    }
    out
}

/// Removes the servers whose link the client `id` carries.
fn remove_servers_of(servers: &mut Vec<Server>, id: u32)
    ensures
        servers_view(final(servers)@) == servers_view(old(servers)@).filter(not_carried_by(id)),
{
    let ghost orig = servers_view(servers@);
    let ghost f = not_carried_by(id);
    let ghost mut j: int = 0;
    let mut k: usize = 0;
    proof {
        lemma_filter_last(orig.take(0), f);
        assert(servers_view(servers@).take(0) =~= orig.take(0));
        assert(servers_view(servers@).skip(0) =~= orig.skip(0));
    }
    while k < servers.len()
        invariant
            0 <= j <= orig.len(),
            k <= servers@.len(),
            f == not_carried_by(id),
            servers_view(servers@).take(k as int) == orig.take(j).filter(f),
            servers_view(servers@).skip(k as int) == orig.skip(j),
        decreases servers@.len() - k,
    {
        let ghost cur = servers_view(servers@);
        proof {
            assert(cur.skip(k as int).len() == orig.skip(j).len());
            assert(cur.skip(k as int)[0] == cur[k as int]);
            assert(orig.skip(j)[0] == orig[j]);
            let t = orig.take(j + 1);
            assert(t.drop_last() =~= orig.take(j));
            assert(t.last() == orig[j]);
            lemma_filter_last(t, f);
            assert(f(orig[j]) == (cur[k as int].client_id != id));
        }
        if servers[k].client_id == id {
            servers.remove(k);
            proof {
                let now = servers_view(servers@);
                assert(now =~= cur.remove(k as int));
                assert(now.take(k as int) =~= cur.take(k as int));
                assert(now.skip(k as int) =~= cur.skip(k as int).skip(1));
                assert(orig.skip(j + 1) =~= orig.skip(j).skip(1));
                j = j + 1;
            }
        } else {
            proof {
                assert(cur.take(k + 1) =~= cur.take(k as int).push(cur[k as int]));
                assert(cur.skip(k + 1) =~= cur.skip(k as int).skip(1));
                assert(orig.skip(j + 1) =~= orig.skip(j).skip(1));
                j = j + 1;
            }
            k += 1;
        }
    }
    proof {
        let cur = servers_view(servers@);
        assert(cur.skip(k as int).len() == 0);
        assert(orig.skip(j).len() == 0);
        assert(orig.take(j) =~= orig);
        assert(cur.take(k as int) =~= cur);
    }
}

impl Channel {
    /// Position of the member with canonical nick `key`.
    pub fn find_member(&self, key: &str) -> (r: Option<usize>)
        requires
            self@.members_distinct(),
        ensures
            r is Some <==> self@.has_member(key@),
            r is Some ==> r->0 < self.users@.len() && r->0 == self@.member_pos(key@),
    {
        let mut i: usize = 0;
        while i < self.users.len()
            invariant
                self@.members_distinct(),
                i <= self.users.len(),
                forall|k: int| 0 <= k < i ==> self@.users[k].nick != key@,
            decreases self.users.len() - i,
        {
            if same_text(self.users[i].nick.as_str(), key) {
                proof {
                    assert(self@.users[i as int].nick == key@);
                    lemma_member_pos(self@, i as int);
                }
                return Some(i);
            }
            i += 1;
        }
        None
    }

    /// Adds a member without privileges.
    pub fn add_member(&mut self, key: String)
        ensures
            final(self)@ == old(self)@.with_member(key@),
    {
        self.users.push(
            ChanUser { nick: key, flags: ChanUserFlags { chan_op: false, chan_halfop: false, chan_voice: false } },
        );
        proof {
            assert(self@.users =~= old(self)@.with_member(key@).users);
        }
    }

    /// Removes the member with canonical nick `key`, if there is one.
    pub fn remove_member(&mut self, key: &str) -> (r: bool)
        requires
            old(self)@.members_distinct(),
        ensures
            r == old(self)@.has_member(key@),
            final(self)@ == old(self)@.without_member(key@),
    {
        match self.find_member(key) {
            Some(m) => {
                self.users.remove(m);
                proof {
                    assert(self@.users =~= old(self)@.users.remove(m as int));
                }
                true
            },
            None => false,
        }
    }

    /// Gives the member `old_key` the key `new_key`.
    pub fn rename_member(&mut self, old_key: &str, new_key: &str)
        ensures
            final(self)@ == old(self)@.with_renamed(old_key@, new_key@),
    {
        let ghost m = self@.with_renamed(old_key@, new_key@);
        let n: usize = self.users.len();
        let mut i: usize = 0;
        while i < n
            invariant
                i <= n,
                n == self.users@.len(),
                n == old(self).users@.len(),
                m == old(self)@.with_renamed(old_key@, new_key@),
                self.name == old(self).name,
                self.topic == old(self).topic,
                forall|k: int| 0 <= k < i ==> (#[trigger] self.users@[k])@ == m.users[k],
                forall|k: int| i <= k < n ==> self.users@[k] == old(self).users@[k],
            decreases n - i,
        {
            if same_text(self.users[i].nick.as_str(), old_key) {
                self.users[i].nick = String::from_str(new_key);
            }
            i += 1;
        }
        proof {
            assert(self@.users =~= m.users);
        }
    }
}

impl Core {
    /// The tables are consistent and every client's buffers have the
    /// capacities of their kinds.
    pub open spec fn wf(&self) -> bool {
        &&& self@.wf()
        &&& forall|i: int| 0 <= i < self.clients.map@.len() ==> (#[trigger] self.clients.map@[i]).wf()
    }

    /// An empty registry.
    pub fn new() -> (r: Core)
        ensures
            r.wf(),
            r@ == CoreView::empty(),
    {
        let r = Core {
            clients: ClientList::new(),
            nicks: Vec::new(),
            users: Vec::new(),
            channels: Vec::new(),
            servers: Vec::new(),
        };
        proof {
            assert(r@.clients =~= Seq::<ClientView>::empty());
            assert(r@.nicks =~= Seq::<NickView>::empty());
            assert(r@.users =~= Seq::<UserView>::empty());
            assert(r@.channels =~= Seq::<ChannelView>::empty());
            assert(r@.servers =~= Seq::<ServerView>::empty());
        }
        r
    }

    /// Position of the client `id`.
    pub fn find_client(&self, id: u32) -> (r: Option<usize>)
        requires
            self.wf(),
        ensures
            r is Some <==> self@.has_client(id),
            r is Some ==> r->0 < self.clients.map@.len() && r->0 == self@.client_pos(id)
                && self.clients.map@[r->0 as int].id == id,
    {
        let mut i: usize = 0;
        while i < self.clients.map.len()
            invariant
                self.wf(),
                i <= self.clients.map.len(),
                forall|k: int| 0 <= k < i ==> self@.clients[k].id != id,
            decreases self.clients.map.len() - i,
        {
            if self.clients.map[i].id == id {
                proof {
                    assert(self@.clients[i as int].id == id);
                    lemma_client_pos(self@, i as int);
                }
                return Some(i);
            }
            i += 1;
        }
        None
    }

    /// Position of the user `id`.
    pub fn find_user(&self, id: u32) -> (r: Option<usize>)
        requires
            self.wf(),
        ensures
            r is Some <==> self@.has_user(id),
            r is Some ==> r->0 < self.users@.len() && r->0 == self@.user_pos(id) && self.users@[r->0 as int].id
                == id,
    {
        let mut i: usize = 0;
        while i < self.users.len()
            invariant
                self.wf(),
                i <= self.users.len(),
                forall|k: int| 0 <= k < i ==> self@.users[k].id != id,
            decreases self.users.len() - i,
        {
            if self.users[i].id == id {
                proof {
                    assert(self@.users[i as int].id == id);
                    lemma_user_pos(self@, i as int);
                }
                return Some(i);
            }
            i += 1;
        }
        None
    }

    /// Position of the canonical nick `key` in the nick table, which is
    /// also the position of its user.
    pub fn find_nick(&self, key: &str) -> (r: Option<usize>)
        requires
            self.wf(),
        ensures
            r is Some <==> self@.nick_taken(key@),
            r is Some ==> r->0 < self.nicks@.len() && r->0 == self@.nick_pos(key@)
                && self.nicks@[r->0 as int].nick@ == key@,
    {
        let mut i: usize = 0;
        while i < self.nicks.len()
            invariant
                self.wf(),
                i <= self.nicks.len(),
                forall|k: int| 0 <= k < i ==> self@.nicks[k].nick != key@,
            decreases self.nicks.len() - i,
        {
            if same_text(self.nicks[i].nick.as_str(), key) {
                proof {
                    assert(self@.nicks[i as int].nick == key@);
                    lemma_nick_pos(self@, i as int);
                }
                return Some(i);
            }
            i += 1;
        }
        None
    }

    /// Position of the channel with canonical name `key`.
    pub fn find_channel_pos(&self, key: &str) -> (r: Option<usize>)
        requires
            self.wf(),
        ensures
            r is Some <==> self@.has_channel(key@),
            r is Some ==> r->0 < self.channels@.len() && r->0 == self@.channel_pos(key@)
                && self.channels@[r->0 as int].name@ == key@,
    {
        let mut i: usize = 0;
        while i < self.channels.len()
            invariant
                self.wf(),
                i <= self.channels.len(),
                forall|k: int| 0 <= k < i ==> self@.channels[k].name != key@,
            decreases self.channels.len() - i,
        {
            if same_text(self.channels[i].name.as_str(), key) {
                proof {
                    assert(self@.channels[i as int].name == key@);
                    lemma_channel_pos(self@, i as int);
                }
                return Some(i);
            }
            i += 1;
        }
        None
    }

    /// The user that holds `nick`, whatever its spelling.
    pub fn find_user_by_nick(&self, nick: &str) -> (r: Option<&User>)
        requires
            self.wf(),
        ensures
            r is Some <==> self@.nick_taken(canonical(nick@)),
            r is Some ==> r->0@ == self@.user(self@.nick_owner(canonical(nick@))),
    {
        let key = canonical_name(nick);
        match self.find_nick(key.as_str()) {
            Some(i) => {
                proof {
                    lemma_nick_pos(self@, i as int);
                    lemma_user_pos(self@, i as int);
                }
                Some(&self.users[i])
            },
            None => None,
        }
    }

    /// The channel called `name`, whatever its spelling.
    pub fn find_channel(&self, name: &str) -> (r: Option<&Channel>)
        requires
            self.wf(),
        ensures
            r is Some <==> self@.has_channel(canonical(name@)),
            r is Some ==> r->0@ == self@.channel(canonical(name@)),
    {
        let key = canonical_name(name);
        match self.find_channel_pos(key.as_str()) {
            Some(i) => Some(&self.channels[i]),
            None => None,
        }
    }

    /// Gives out the next client id, or nothing when the ids are used up.
    pub fn allocate_client_id(&mut self) -> (r: Option<u32>)
        requires
            old(self).wf(),
        ensures
            final(self).wf(),
            r is Some <==> old(self)@.next_id < u32::MAX,
            r is Some ==> r->0 == old(self)@.next_id && final(self)@ == old(self)@.allocate()
                && !final(self)@.has_client(r->0),
            r is None ==> final(self)@ == old(self)@,
    {
        if self.clients.next_id == u32::MAX {
            return None;
        }
        let id: u32 = self.clients.next_id;
        proof {
            lemma_allocate_wf(self@);
        }
        self.clients.next_id = id + 1;
        Some(id)
    }

    /// Adds a client under an id given out before. A client that the
    /// registry does not accept is handed back.
    pub fn insert_client(&mut self, client: Client) -> (r: Result<(), Client>)
        requires
            old(self).wf(),
            client.wf(),
        ensures
            final(self).wf(),
            r is Ok <==> old(self)@.accepts(client@),
            r is Ok ==> final(self)@ == old(self)@.insert(client@),
            r is Err ==> final(self)@ == old(self)@ && r->Err_0 == client,
    {
        let is_user = match &client.client_type {
            ClientType::User(_) => true,
            _ => false,
        };
        if client.id >= self.clients.next_id || is_user || self.find_client(client.id).is_some() {
            return Err(client);
        }
        proof {
            lemma_insert_wf(self@, client@);
        }
        self.clients.map.push(client);
        proof {
            assert(self@.clients =~= old(self)@.insert(client@).clients);
        }
        Ok(())
    }

    // ----- lines for clients, protocol states and registration -----

    /// Queues `line` and a CR-LF for the client `id` and wakes its task; a
    /// client whose output buffer is full is marked dead. Without such a
    /// client nothing happens.
    pub fn send_to(&mut self, id: u32, line: &str)
        requires
            old(self).wf(),
        ensures
            final(self).wf(),
            final(self)@ == old(self)@.send_to(id, line.spec_bytes()),
    {
        proof {
            lemma_send_to_wf(self@, id, line.spec_bytes());
        }
        match self.find_client(id) {
            Some(i) => {
                self.clients.map[i].send_line(line);
                proof {
                    let m = old(self)@.send_to(id, line.spec_bytes());
                    assert forall|k: int| 0 <= k < m.clients.len() implies self@.clients[k] == m.clients[k] by {
                        if k != i {
                            assert(self.clients.map@[k] == old(self).clients.map@[k]);
                            lemma_client_pos(old(self)@, k);
                        }
                    }
                    assert(self@.clients =~= m.clients);
                }
            },
            None => {
                proof {
                    let m = old(self)@.send_to(id, line.spec_bytes());
                    assert forall|k: int| 0 <= k < m.clients.len() implies self@.clients[k] == m.clients[k] by {
                        lemma_client_pos(old(self)@, k);
                    }
                    assert(self@.clients =~= m.clients);
                }
            },
        }
    }

    /// Queues `line` and a CR-LF for every client whose id is among
    /// `targets`, and wakes their tasks.
    pub fn broadcast(&mut self, targets: &Vec<u32>, line: &str)
        requires
            old(self).wf(),
        ensures
            final(self).wf(),
            final(self)@ == old(self)@.broadcast(targets@, line.spec_bytes()),
    {
        proof {
            lemma_broadcast_wf(self@, targets@, line.spec_bytes());
        }
        let ghost m = self@.broadcast(targets@, line.spec_bytes());
        let n: usize = self.clients.map.len();
        let mut i: usize = 0;
        while i < n
            invariant
                i <= n,
                n == self.clients.map@.len(),
                n == old(self).clients.map@.len(),
                m == old(self)@.broadcast(targets@, line.spec_bytes()),
                self.clients.next_id == old(self).clients.next_id,
                self.nicks == old(self).nicks,
                self.users == old(self).users,
                self.channels == old(self).channels,
                self.servers == old(self).servers,
                forall|k: int| 0 <= k < i ==> (#[trigger] self.clients.map@[k])@ == m.clients[k],
                forall|k: int| i <= k < n ==> self.clients.map@[k] == old(self).clients.map@[k],
                forall|k: int| 0 <= k < n ==> (#[trigger] self.clients.map@[k]).wf(),
                forall|k: int| 0 <= k < n ==> (#[trigger] old(self).clients.map@[k]).wf(),
            decreases n - i,
        {
            if contains_id(targets, self.clients.map[i].id) {
                self.clients.map[i].send_line(line);
            }
            i += 1;
        }
        proof {
            assert(self@.clients =~= m.clients);
        }
    }

    /// Marks the client `id` dead and wakes its task, which tears it down
    /// at its next poll.
    pub fn kill(&mut self, id: u32)
        requires
            old(self).wf(),
        ensures
            final(self).wf(),
            final(self)@ == old(self)@.kill(id),
    {
        proof {
            lemma_kill_wf(self@, id);
        }
        match self.find_client(id) {
            Some(i) => {
                self.clients.map[i].dead = true;
                self.clients.map[i].wake();
                proof {
                    let m = old(self)@.kill(id);
                    assert forall|k: int| 0 <= k < m.clients.len() implies self@.clients[k] == m.clients[k] by {
                        if k != i {
                            assert(self.clients.map@[k] == old(self).clients.map@[k]);
                            lemma_client_pos(old(self)@, k);
                        }
                    }
                    assert(self@.clients =~= m.clients);
                }
            },
            None => {
                proof {
                    let m = old(self)@.kill(id);
                    assert forall|k: int| 0 <= k < m.clients.len() implies self@.clients[k] == m.clients[k] by {
                        lemma_client_pos(old(self)@, k);
                    }
                    assert(self@.clients =~= m.clients);
                }
            },
        }
    }

    /// Records what is known of the client `id` before its registration.
    /// Nothing changes for a user or where there is no such client.
    pub fn set_proto(&mut self, id: u32, proto: ProtoUser) -> (r: bool)
        requires
            old(self).wf(),
        ensures
            final(self).wf(),
            r <==> old(self)@.has_client(id) && !(old(self)@.client(id).client_type is User),
            r ==> final(self)@ == old(self)@.set_type(id, ClientTypeView::ProtoUser(proto@)),
            !r ==> final(self)@ == old(self)@,
    {
        match self.find_client(id) {
            Some(i) => {
                let is_user = match &self.clients.map[i].client_type {
                    ClientType::User(_) => true,
                    _ => false,
                };
                if is_user {
                    return false;
                }
                proof {
                    lemma_set_type_wf(self@, id, ClientTypeView::ProtoUser(proto@));
                }
                self.clients.map[i].client_type = ClientType::ProtoUser(proto);
                proof {
                    let m = old(self)@.set_type(id, ClientTypeView::ProtoUser(proto@));
                    assert forall|k: int| 0 <= k < m.clients.len() implies self@.clients[k] == m.clients[k] by {
                        if k != i {
                            assert(self.clients.map@[k] == old(self).clients.map@[k]);
                            lemma_client_pos(old(self)@, k);
                        }
                    }
                    assert(self@.clients =~= m.clients);
                    assert forall|k: int| 0 <= k < self.clients.map@.len() implies (#[trigger] self.clients.map@[k]).wf() by {
                        assert(old(self).clients.map@[k].wf());
                    }
                }
                true
            },
            None => false,
        }
    }

    /// Registers the client `id` as a user under `nick`.
    pub fn register(&mut self, id: u32, nick: String, username: String, real_name: String, host: Host) -> (r:
        Result<(), RegistryError>)
        requires
            old(self).wf(),
        ensures
            final(self).wf(),
            r is Ok ==> final(self)@ == old(self)@.register(id, nick@, username@, real_name@, host@),
            r is Err ==> final(self)@ == old(self)@,
            r == (if !old(self)@.has_client(id) {
                Err::<(), RegistryError>(RegistryError::NoSuchClient)
            } else if old(self)@.client(id).client_type is User {
                Err(RegistryError::AlreadyRegistered)
            } else if old(self)@.nick_taken(canonical(nick@)) {
                Err(RegistryError::NickInUse)
            } else {
                Ok(())
            }),
    {
        let i = match self.find_client(id) {
            Some(i) => i,
            None => {
                return Err(RegistryError::NoSuchClient);
            },
        };
        let is_user = match &self.clients.map[i].client_type {
            ClientType::User(_) => true,
            _ => false,
        };
        if is_user {
            return Err(RegistryError::AlreadyRegistered);
        }
        let key = canonical_name(nick.as_str());
        if self.find_nick(key.as_str()).is_some() {
            return Err(RegistryError::NickInUse);
        }
        proof {
            lemma_register_wf(self@, id, nick@, username@, real_name@, host@);
        }
        let ghost m = self@.register(id, nick@, username@, real_name@, host@);
        self.clients.map[i].client_type = ClientType::User(id);
        self.users.push(
            User {
                id,
                nick,
                username,
                real_name,
                host,
                channel_list: Vec::new(),
                flags: UserFlags { registered: true },
            },
        );
        self.nicks.push(NickEntry { nick: key, user_id: id });
        proof {
            assert forall|k: int| 0 <= k < m.clients.len() implies self@.clients[k] == m.clients[k] by {
                if k != i {
                    assert(self.clients.map@[k] == old(self).clients.map@[k]);
                    lemma_client_pos(old(self)@, k);
                }
            }
            assert(self@.clients =~= m.clients);
            let u = self.users@[self.users@.len() - 1];
            assert(u.channel_list@ =~= Seq::<String>::empty());
            assert(strs_view(u.channel_list@) =~= Seq::<Seq<char>>::empty());
            assert(self@.users =~= m.users);
            assert(self@.nicks =~= m.nicks);
            assert forall|k: int| 0 <= k < self.clients.map@.len() implies (#[trigger] self.clients.map@[k]).wf() by {
                assert(old(self).clients.map@[k].wf());
            }
        }
        Ok(())
    }

    // ----- channels and change of nick -----

    /// The ids of the users that are members of the channel at position
    /// `p`, in the order of the members.
    pub fn channel_targets(&self, p: usize) -> (r: Vec<u32>)
        requires
            self.wf(),
            p < self.channels@.len(),
        ensures
            r@ == self@.member_ids(self@.channels[p as int]),
    {
        let ghost want = self@.member_ids(self@.channels[p as int]);
        let mut out: Vec<u32> = Vec::new();
        let n: usize = self.channels[p].users.len();
        let mut i: usize = 0;
        while i < n
            invariant
                self.wf(),
                p < self.channels@.len(),
                n == self.channels@[p as int].users@.len(),
                i <= n,
                want == self@.member_ids(self@.channels[p as int]),
                out@ == want.take(i as int),
            decreases n - i,
        {
            proof {
                assert(self@.nick_taken(self@.channels[p as int].users[i as int].nick));
            }
            let id: u32 = match self.find_nick(self.channels[p].users[i].nick.as_str()) {
                Some(q) => self.nicks[q].user_id,
                None => 0,
            };
            out.push(id);
            proof {
                assert(out@ =~= want.take(i + 1));
            }
            i += 1;
        }
        proof {
            assert(want.take(n as int) =~= want);
        }
        out
    }

    /// The position of the channel called `name`, which is created where
    /// there was none.
    pub fn get_or_create_channel(&mut self, name: &str) -> (r: usize)
        requires
            old(self).wf(),
        ensures
            final(self).wf(),
            final(self)@ == old(self)@.ensure_channel(canonical(name@)),
            r < final(self).channels@.len(),
            r == final(self)@.channel_pos(canonical(name@)),
            final(self).channels@[r as int].name@ == canonical(name@),
    {
        let key = canonical_name(name);
        proof {
            lemma_ensure_channel_wf(self@, key@);
        }
        match self.find_channel_pos(key.as_str()) {
            Some(p) => p,
            None => {
                let p: usize = self.channels.len();
                self.channels.push(Channel { name: key, users: Vec::new(), topic: String::new() });
                proof {
                    let m = old(self)@.ensure_channel(key@);
                    let ch = self.channels@[p as int];
                    assert(ch@.users =~= Seq::<ChanUserView>::empty());
                    assert(self@.channels =~= m.channels);
                    lemma_channel_pos(self@, p as int);
                }
                p
            },
        }
    }

    /// The user `uid` takes the nick `nick`.
    pub fn rename(&mut self, uid: u32, nick: String) -> (r: Result<(), RegistryError>)
        requires
            old(self).wf(),
        ensures
            final(self).wf(),
            r is Ok ==> final(self)@ == old(self)@.rename(uid, nick@),
            r is Err ==> final(self)@ == old(self)@,
            r == (if !old(self)@.has_user(uid) {
                Err::<(), RegistryError>(RegistryError::NoSuchUser)
            } else if old(self)@.nick_taken(canonical(nick@)) && old(self)@.nick_owner(canonical(nick@)) != uid {
                Err(RegistryError::NickInUse)
            } else {
                Ok(())
            }),
    {
        let i = match self.find_user(uid) {
            Some(i) => i,
            None => {
                return Err(RegistryError::NoSuchUser);
            },
        };
        let key = canonical_name(nick.as_str());
        match self.find_nick(key.as_str()) {
            Some(q) => {
                proof {
                    lemma_nick_pos(self@, q as int);
                    lemma_user_pos(self@, q as int);
                    lemma_user_pos(self@, i as int);
                }
                if q != i {
                    return Err(RegistryError::NickInUse);
                }
            },
            None => {},
        }
        proof {
            lemma_rename_wf(self@, uid, nick@);
        }
        let ghost m = self@.rename(uid, nick@);
        let old_key = self.nicks[i].nick.clone();
        self.users[i].nick = nick;
        self.nicks[i].nick = key.clone();
        proof {
            assert(self@.users =~= m.users);
            assert(self@.nicks =~= m.nicks);
        }
        let n: usize = self.channels.len();
        let mut c: usize = 0;
        while c < n
            invariant
                c <= n,
                n == self.channels@.len(),
                n == old(self).channels@.len(),
                m == old(self)@.rename(uid, nick@),
                old_key@ == old(self)@.nicks[i as int].nick,
                i == old(self)@.user_pos(uid),
                key@ == canonical(nick@),
                self.clients == old(self).clients,
                self.servers == old(self).servers,
                self@.users == m.users,
                self@.nicks == m.nicks,
                forall|k: int| 0 <= k < c ==> (#[trigger] self.channels@[k])@ == m.channels[k],
                forall|k: int| c <= k < n ==> self.channels@[k] == old(self).channels@[k],
            decreases n - c,
        {
            self.channels[c].rename_member(old_key.as_str(), key.as_str());
            c += 1;
        }
        proof {
            assert(self@.channels =~= m.channels);
        }
        Ok(())
    }

    /// The user `uid` joins the channel called `name`, which is created
    /// where there was none. Nothing changes for a member, or where there
    /// is no such user.
    pub fn join(&mut self, uid: u32, name: &str) -> (joined: bool)
        requires
            old(self).wf(),
        ensures
            final(self).wf(),
            joined <==> old(self)@.has_user(uid) && !old(self)@.is_member(uid, canonical(name@)),
            joined ==> final(self)@ == old(self)@.join(uid, canonical(name@)),
            !joined ==> final(self)@ == old(self)@,
    {
        let i = match self.find_user(uid) {
            Some(i) => i,
            None => {
                return false;
            },
        };
        let key = canonical_name(name);
        let nk = self.nicks[i].nick.clone();
        match self.find_channel_pos(key.as_str()) {
            Some(p) => {
                if self.channels[p].find_member(nk.as_str()).is_some() {
                    return false;
                }
            },
            None => {},
        }
        proof {
            lemma_join_wf(self@, uid, key@);
            lemma_ensure_channel_wf(self@, key@);
        }
        let ghost m = self@.join(uid, key@);
        let ghost s1 = self@.ensure_channel(key@);
        let p = self.get_or_create_channel(name);
        self.channels[p].add_member(nk);
        self.users[i].channel_list.push(key);
        proof {
            assert(self@.channels =~= m.channels);
            let cl = self.users@[i as int].channel_list@;
            let ol = old(self).users@[i as int].channel_list@;
            assert(strs_view(cl) =~= strs_view(ol).push(key@));
            assert(self@.users =~= m.users);
            assert forall|k: int| 0 <= k < self.clients.map@.len() implies (#[trigger] self.clients.map@[k]).wf() by {
                assert(old(self).clients.map@[k].wf());
            }
        }
        true
    }

    /// The user `uid` leaves the channel called `name`; a channel left
    /// empty is deleted. Nothing changes for one who is no member.
    pub fn part(&mut self, uid: u32, name: &str) -> (parted: bool)
        requires
            old(self).wf(),
        ensures
            final(self).wf(),
            parted <==> old(self)@.has_user(uid) && old(self)@.is_member(uid, canonical(name@)),
            parted ==> final(self)@ == old(self)@.part(uid, canonical(name@)),
            !parted ==> final(self)@ == old(self)@,
    {
        let i = match self.find_user(uid) {
            Some(i) => i,
            None => {
                return false;
            },
        };
        let key = canonical_name(name);
        let p = match self.find_channel_pos(key.as_str()) {
            Some(p) => p,
            None => {
                return false;
            },
        };
        proof {
            assert(self@.channels[p as int].members_distinct());
        }
        let nk = self.nicks[i].nick.clone();
        if self.channels[p].find_member(nk.as_str()).is_none() {
            return false;
        }
        proof {
            lemma_part_wf(self@, uid, key@);
        }
        let ghost m = self@.part(uid, key@);
        self.channels[p].remove_member(nk.as_str());
        if self.channels[p].users.len() == 0 {
            self.channels.remove(p);
            proof {
                assert(self@.channels =~= m.channels);
            }
        } else {
            proof {
                assert(self@.channels =~= m.channels);
            }
        }
        let list = without_name(&self.users[i].channel_list, key.as_str());
        self.users[i].channel_list = list;
        proof {
            assert(self@.users =~= m.users);
            assert forall|k: int| 0 <= k < self.clients.map@.len() implies (#[trigger] self.clients.map@[k]).wf() by {
                assert(old(self).clients.map@[k].wf());
            }
        }
        true
    }

    // ----- teardown -----

    /// Removes the client `id` and everything that refers to it: its user
    /// record, its nick entry, its memberships and the server links it
    /// carries. Afterwards no table refers to the id.
    pub fn remove_client(&mut self, id: u32)
        requires
            old(self).wf(),
        ensures
            final(self).wf(),
            final(self)@ == old(self)@.remove_client(id),
            !final(self)@.refers_to(id),
    {
        proof {
            lemma_remove_client_clean(self@, id);
        }
        let ghost m = self@.remove_client(id);
        let user_at = self.find_user(id);
        let client_at = self.find_client(id);
        match user_at {
            Some(i) => {
                let entry = self.nicks.remove(i);
                self.users.remove(i);
                proof {
                    assert(self@.nicks =~= m.nicks);
                    assert(self@.users =~= m.users);
                }
                let n: usize = self.channels.len();
                let mut c: usize = 0;
                while c < n
                    invariant
                        c <= n,
                        n == self.channels@.len(),
                        n == old(self).channels@.len(),
                        old(self).wf(),
                        m == old(self)@.remove_client(id),
                        old(self)@.has_user(id),
                        i == old(self)@.user_pos(id),
                        entry@.nick == old(self)@.nicks[i as int].nick,
                        self.clients == old(self).clients,
                        self.servers == old(self).servers,
                        self@.users == m.users,
                        self@.nicks == m.nicks,
                        forall|k: int| 0 <= k < c ==> (#[trigger] self.channels@[k])@ == m.channels[k],
                        forall|k: int| c <= k < n ==> self.channels@[k] == old(self).channels@[k],
                    decreases n - c,
                {
                    proof {
                        assert(old(self)@.channels[c as int].members_distinct());
                    }
                    self.channels[c].remove_member(entry.nick.as_str());
                    c += 1;
                }
                proof {
                    assert(self@.channels =~= m.channels);
                }
            },
            None => {},
        }
        match client_at {
            Some(p) => {
                self.clients.map.remove(p);
                proof {
                    assert(self@.clients =~= m.clients);
                    old(self).clients.map@.remove_ensures(p as int);
                    assert forall|k: int| 0 <= k < self.clients.map@.len() implies (#[trigger] self.clients.map@[k]).wf() by {
                        if k < p {
                            assert(old(self).clients.map@[k].wf());
                        } else {
                            assert(old(self).clients.map@[k + 1].wf());
                        }
                    }
                }
            },
            None => {},
        }
        remove_servers_of(&mut self.servers, id);
    }

    // ----- fan-out with one left out, farewells and replies -----

    /// Queues `line` and a CR-LF for every client whose id is among
    /// `targets`, but for the client `skip`, and wakes their tasks.
    pub fn broadcast_except(&mut self, targets: &Vec<u32>, skip: u32, line: &str)
        requires
            old(self).wf(),
        ensures
            final(self).wf(),
            final(self)@ == old(self)@.broadcast_except(targets@, skip, line.spec_bytes()),
    {
        proof {
            lemma_broadcast_except_wf(self@, targets@, skip, line.spec_bytes());
        }
        let ghost m = self@.broadcast_except(targets@, skip, line.spec_bytes());
        let n: usize = self.clients.map.len();
        let mut i: usize = 0;
        while i < n
            invariant
                i <= n,
                n == self.clients.map@.len(),
                n == old(self).clients.map@.len(),
                m == old(self)@.broadcast_except(targets@, skip, line.spec_bytes()),
                self.clients.next_id == old(self).clients.next_id,
                self.nicks == old(self).nicks,
                self.users == old(self).users,
                self.channels == old(self).channels,
                self.servers == old(self).servers,
                forall|k: int| 0 <= k < i ==> (#[trigger] self.clients.map@[k])@ == m.clients[k],
                forall|k: int| i <= k < n ==> self.clients.map@[k] == old(self).clients.map@[k],
                forall|k: int| 0 <= k < n ==> (#[trigger] self.clients.map@[k]).wf(),
                forall|k: int| 0 <= k < n ==> (#[trigger] old(self).clients.map@[k]).wf(),
            decreases n - i,
        {
            let id: u32 = self.clients.map[i].id;
            if id != skip && contains_id(targets, id) {
                self.clients.map[i].send_line(line);
            }
            i += 1;
        }
        proof {
            assert(self@.clients =~= m.clients);
        }
    }

    /// Takes the user `uid` out of every channel and empties its list of
    /// channels. Nothing changes where there is no such user.
    pub fn leave_all(&mut self, uid: u32) -> (r: bool)
        requires
            old(self).wf(),
        ensures
            final(self).wf(),
            r == old(self)@.has_user(uid),
            r ==> final(self)@ == old(self)@.leave_all(uid),
            !r ==> final(self)@ == old(self)@,
    {
        let i = match self.find_user(uid) {
            Some(i) => i,
            None => {
                return false;
            },
        };
        proof {
            lemma_leave_all_wf(self@, uid);
        }
        let ghost m = self@.leave_all(uid);
        let key = self.nicks[i].nick.clone();
        self.users[i].channel_list = Vec::new();
        proof {
            let cl = self.users@[i as int].channel_list@;
            assert(strs_view(cl) =~= Seq::<Seq<char>>::empty());
            assert(self@.users =~= m.users);
        }
        let n: usize = self.channels.len();
        let mut c: usize = 0;
        while c < n
            invariant
                c <= n,
                n == self.channels@.len(),
                n == old(self).channels@.len(),
                old(self).wf(),
                m == old(self)@.leave_all(uid),
                i == old(self)@.user_pos(uid),
                key@ == old(self)@.nicks[i as int].nick,
                self.clients == old(self).clients,
                self.servers == old(self).servers,
                self.nicks == old(self).nicks,
                self@.users == m.users,
                forall|k: int| 0 <= k < c ==> (#[trigger] self.channels@[k])@ == m.channels[k],
                forall|k: int| c <= k < n ==> self.channels@[k] == old(self).channels@[k],
            decreases n - c,
        {
            proof {
                assert(old(self)@.channels[c as int].members_distinct());
            }
            self.channels[c].remove_member(key.as_str());
            c += 1;
        }
        proof {
            assert(self@.channels =~= m.channels);
        }
        true
    }

    /// The ids of the members of every channel that has the member `key`.
    pub fn peers_of(&self, key: &str) -> (r: Vec<u32>)
        requires
            self.wf(),
        ensures
            r@ == self@.peer_ids(key@),
    {
        let mut out: Vec<u32> = Vec::new();
        let n: usize = self.channels.len();
        let mut c: usize = 0;
        while c < n
            invariant
                self.wf(),
                c <= n,
                n == self.channels@.len(),
                out@ == self@.peer_ids_upto(key@, c as int),
            decreases n - c,
        {
            proof {
                assert(self@.channels[c as int].members_distinct());
            }
            if self.channels[c].find_member(key).is_some() {
                let mut ids = self.channel_targets(c);
                out.append(&mut ids);
            }
            proof {
                assert(out@ =~= self@.peer_ids_upto(key@, c + 1));
            }
            c += 1;
        }
        out
    }

    /// How a numeric reply addresses the client `id`: by its nick where it
    /// has one, else by `*`.
    pub fn reply_name(&self, id: u32) -> (r: String)
        requires
            self.wf(),
        ensures
            r@ == self@.reply_name(id),
    {
        let star = String::from_str("*");
        let i = match self.find_client(id) {
            Some(i) => i,
            None => {
                return star;
            },
        };
        match &self.clients.map[i].client_type {
            ClientType::User(uid) => match self.find_user(*uid) {
                Some(j) => self.users[j].nick.clone(),
                None => star,
            },
            ClientType::ProtoUser(p) => match &p.nick {
                Some(n) => n.clone(),
                None => star,
            },
            _ => star,
        }
    }

    // ----- protocol states -----

    /// The protocol state of the client `id`, if there is such a client.
    pub fn client_state(&self, id: u32) -> (r: Option<ClientType>)
        requires
            self.wf(),
        ensures
            r is Some <==> self@.has_client(id),
            r is Some ==> r->0@ == self@.client(id).client_type,
    {
        match self.find_client(id) {
            Some(i) => Some(self.clients.map[i].client_type.duplicate()),
            None => None,
        }
    }

    // ----- wake handles and buffers -----

    /// Installs the handle of the task that owns the client `id`.
    pub fn set_handler(&mut self, id: u32, task: Task)
        requires
            old(self).wf(),
        ensures
            final(self).wf(),
            final(self)@ == old(self)@.set_handler(id),
    {
        proof {
            lemma_set_handler_wf(self@, id);
        }
        match self.find_client(id) {
            Some(i) => {
                self.clients.map[i].set_handler(task);
                proof {
                    let m = old(self)@.set_handler(id);
                    assert forall|k: int| 0 <= k < m.clients.len() implies self@.clients[k] == m.clients[k] by {
                        if k != i {
                            assert(self.clients.map@[k] == old(self).clients.map@[k]);
                            lemma_client_pos(old(self)@, k);
                        }
                    }
                    assert(self@.clients =~= m.clients);
                    assert forall|k: int| 0 <= k < self.clients.map@.len() implies (#[trigger] self.clients.map@[k]).wf() by {
                        assert(old(self).clients.map@[k].wf());
                    }
                }
            },
            None => {
                proof {
                    let m = old(self)@.set_handler(id);
                    assert forall|k: int| 0 <= k < m.clients.len() implies self@.clients[k] == m.clients[k] by {
                        lemma_client_pos(old(self)@, k);
                    }
                    assert(self@.clients =~= m.clients);
                }
            },
        }
    }

    /// The ids of the clients, oldest first.
    pub fn client_ids(&self) -> (r: Vec<u32>)
        ensures
            r@ == self@.client_ids(),
    {
        let mut out: Vec<u32> = Vec::new();
        let mut i: usize = 0;
        while i < self.clients.map.len()
            invariant
                i <= self.clients.map.len(),
                out@ == self@.client_ids().take(i as int),
            decreases self.clients.map.len() - i,
        {
            out.push(self.clients.map[i].id);
            proof {
                assert(out@ =~= self@.client_ids().take(i + 1));
            }
            i += 1;
        }
        proof {
            assert(self@.client_ids().take(self.clients.map.len() as int) =~= self@.client_ids());
        }
        out
    }

    /// Appends `bytes` to the input of the client `id`. Says whether they
    /// fit; where they do not, or there is no such client, nothing changes.
    pub fn receive(&mut self, id: u32, bytes: &[u8]) -> (r: bool)
        requires
            old(self).wf(),
        ensures
            final(self).wf(),
            r == (old(self)@.has_client(id) && old(self)@.client(id).input.len() + bytes@.len() <= MAX_MSG_SIZE),
            r ==> final(self)@ == old(self)@.set_input(id, old(self)@.client(id).input + bytes@),
            !r ==> final(self)@ == old(self)@,
    {
        let i = match self.find_client(id) {
            Some(i) => i,
            None => {
                return false;
            },
        };
        proof {
            lemma_client_pos(self@, i as int);
        }
        let ghost input = self@.client(id).input;
        match self.clients.map[i].input.append_bytes(bytes) {
            Ok(()) => {
                proof {
                    lemma_set_input_wf(old(self)@, id, input + bytes@);
                    let m = old(self)@.set_input(id, input + bytes@);
                    assert forall|k: int| 0 <= k < m.clients.len() implies self@.clients[k] == m.clients[k] by {
                        if k != i {
                            assert(self.clients.map@[k] == old(self).clients.map@[k]);
                            lemma_client_pos(old(self)@, k);
                        }
                    }
                    assert(self@.clients =~= m.clients);
                    assert forall|k: int| 0 <= k < self.clients.map@.len() implies (#[trigger] self.clients.map@[k]).wf() by {
                        assert(old(self).clients.map@[k].wf());
                    }
                }
                true
            },
            Err(_) => {
                proof {
                    assert(self.clients.map@ =~= old(self).clients.map@);
                    assert(self@.clients =~= old(self)@.clients);
                }
                false
            },
        }
    }

    /// Drops the first `n` bytes of the output of the client `id`, or all
    /// of them where there are fewer. Says whether there is such a client.
    pub fn sent(&mut self, id: u32, n: usize) -> (r: bool)
        requires
            old(self).wf(),
        ensures
            final(self).wf(),
            r == old(self)@.has_client(id),
            r ==> final(self)@ == old(self)@.set_output(id, drop_front(old(self)@.client(id).output, n as int)),
            !r ==> final(self)@ == old(self)@,
    {
        let i = match self.find_client(id) {
            Some(i) => i,
            None => {
                return false;
            },
        };
        proof {
            lemma_client_pos(self@, i as int);
        }
        let ghost output = self@.client(id).output;
        let len: usize = self.clients.map[i].output.len();
        if n >= len {
            self.clients.map[i].output.clear();
            proof {
                assert(drop_front(output, n as int) =~= Seq::<u8>::empty());
            }
        } else {
            self.clients.map[i].output.shift_bytes_to_start(n);
        }
        proof {
            lemma_set_output_wf(old(self)@, id, drop_front(output, n as int));
            let m = old(self)@.set_output(id, drop_front(output, n as int));
            assert forall|k: int| 0 <= k < m.clients.len() implies self@.clients[k] == m.clients[k] by {
                if k != i {
                    assert(self.clients.map@[k] == old(self).clients.map@[k]);
                    lemma_client_pos(old(self)@, k);
                }
            }
            assert(self@.clients =~= m.clients);
            assert forall|k: int| 0 <= k < self.clients.map@.len() implies (#[trigger] self.clients.map@[k]).wf() by {
                assert(old(self).clients.map@[k].wf());
            }
        }
        true
    }
}

} // verus!
