//! The registry as a mathematical value: its tables, what it means for them
//! to be consistent, and the state changes of the protocol as functions.

use vstd::prelude::*;
use crate::client::{ClientTypeView, ClientView};
use crate::irc::{ChanUserFlags, ChanUserView, ChannelView, HostView, ServerView, UserFlags, UserView};
use crate::text::canonical;

verus! {

/// One entry of the nick table: a canonical nick and the user that holds it.
pub struct NickView {
    pub nick: Seq<char>,
    pub user_id: u32,
}

/// Mathematical value of the registry.
pub struct CoreView {
    /// The connected clients, oldest first.
    pub clients: Seq<ClientView>,
    /// The id that the next client gets.
    pub next_id: u32,
    /// Canonical nick to user id; entry `i` belongs to user `i`.
    pub nicks: Seq<NickView>,
    /// The registered users, oldest first.
    pub users: Seq<UserView>,
    /// The channels, oldest first.
    pub channels: Seq<ChannelView>,
    /// The peer servers.
    pub servers: Seq<ServerView>,
}

/// Names other than `key`.
pub open spec fn other_than(key: Seq<char>) -> spec_fn(Seq<char>) -> bool {
    |c: Seq<char>| c != key
}

/// Servers whose link is not carried by the client `id`.
pub open spec fn not_carried_by(id: u32) -> spec_fn(ServerView) -> bool {
    |sv: ServerView| sv.client_id != id
}

/// The position before a removal at `i` of what stands at `k` after it.
pub open spec fn before_removal(i: int, k: int) -> int {
    if k < i {
        k
    } else {
        k + 1
    }
}

/// The position after a removal at `i` of what stood at `j` before it.
pub open spec fn after_removal(i: int, j: int) -> int {
    if j < i {
        j
    } else {
        j - 1
    }
}

impl ChannelView {
    /// Whether `key` is the canonical nick of a member.
    pub open spec fn has_member(self, key: Seq<char>) -> bool {
        exists|m: int| 0 <= m < self.users.len() && #[trigger] self.users[m].nick == key
    }

    /// The position of the member with canonical nick `key`.
    pub open spec fn member_pos(self, key: Seq<char>) -> int {
        choose|m: int| 0 <= m < self.users.len() && #[trigger] self.users[m].nick == key
    }

    /// No two members share a nick.
    pub open spec fn members_distinct(self) -> bool {
        forall|a: int, b: int|
            0 <= a < b < self.users.len() ==> #[trigger] self.users[a].nick != #[trigger] self.users[b].nick
    }

    /// The channel with one more member, without privileges.
    pub open spec fn with_member(self, key: Seq<char>) -> ChannelView {
        ChannelView {
            users: self.users.push(
                ChanUserView {
                    nick: key,
                    flags: ChanUserFlags { chan_op: false, chan_halfop: false, chan_voice: false },
                },
            ),
            ..self
        }
    }

    /// The channel without the member `key`, if it has such a member.
    pub open spec fn without_member(self, key: Seq<char>) -> ChannelView {
        if self.has_member(key) {
            ChannelView { users: self.users.remove(self.member_pos(key)), ..self }
        } else {
            self
        }
    }

    /// The channel with member `old_key` known as `new_key`.
    pub open spec fn with_renamed(self, old_key: Seq<char>, new_key: Seq<char>) -> ChannelView {
        ChannelView {
            users: self.users.map_values(
                |m: ChanUserView| if m.nick == old_key { ChanUserView { nick: new_key, ..m } } else { m },
            ),
            ..self
        }
    }
}

impl CoreView {
    /// The registry with nothing in it.
    pub open spec fn empty() -> CoreView {
        CoreView {
            clients: Seq::empty(),
            next_id: 0,
            nicks: Seq::empty(),
            users: Seq::empty(),
            channels: Seq::empty(),
            servers: Seq::empty(),
        }
    }

    // ----- lookups -----

    /// Whether a client with this id is connected.
    pub open spec fn has_client(self, id: u32) -> bool {
        exists|i: int| 0 <= i < self.clients.len() && #[trigger] self.clients[i].id == id
    }

    /// The position of the client with this id.
    pub open spec fn client_pos(self, id: u32) -> int {
        choose|i: int| 0 <= i < self.clients.len() && #[trigger] self.clients[i].id == id
    }

    /// The client with this id.
    pub open spec fn client(self, id: u32) -> ClientView {
        self.clients[self.client_pos(id)]
    }

    /// Whether a user with this id is registered.
    pub open spec fn has_user(self, id: u32) -> bool {
        exists|i: int| 0 <= i < self.users.len() && #[trigger] self.users[i].id == id
    }

    /// The position of the user with this id.
    pub open spec fn user_pos(self, id: u32) -> int {
        choose|i: int| 0 <= i < self.users.len() && #[trigger] self.users[i].id == id
    }

    /// The user with this id.
    pub open spec fn user(self, id: u32) -> UserView {
        self.users[self.user_pos(id)]
    }

    /// Whether the canonical nick `key` is in use.
    pub open spec fn nick_taken(self, key: Seq<char>) -> bool {
        exists|i: int| 0 <= i < self.nicks.len() && #[trigger] self.nicks[i].nick == key
    }

    /// The position of the canonical nick `key` in the nick table.
    pub open spec fn nick_pos(self, key: Seq<char>) -> int {
        choose|i: int| 0 <= i < self.nicks.len() && #[trigger] self.nicks[i].nick == key
    }

    /// The id of the user that holds the canonical nick `key`.
    pub open spec fn nick_owner(self, key: Seq<char>) -> u32 {
        self.nicks[self.nick_pos(key)].user_id
    }

    /// Whether a channel with canonical name `key` exists.
    pub open spec fn has_channel(self, key: Seq<char>) -> bool {
        exists|i: int| 0 <= i < self.channels.len() && #[trigger] self.channels[i].name == key
    }

    /// The position of the channel with canonical name `key`.
    pub open spec fn channel_pos(self, key: Seq<char>) -> int {
        choose|i: int| 0 <= i < self.channels.len() && #[trigger] self.channels[i].name == key
    }

    /// The channel with canonical name `key`.
    pub open spec fn channel(self, key: Seq<char>) -> ChannelView {
        self.channels[self.channel_pos(key)]
    }

    /// Whether some client is the registered user `uid`.
    pub open spec fn has_user_client(self, uid: u32) -> bool {
        exists|i: int|
            0 <= i < self.clients.len() && #[trigger] self.clients[i].id == uid
                && self.clients[i].client_type == ClientTypeView::User(uid)
    }

    // ----- consistency -----

    /// Client ids are distinct and below `next_id`; buffers are within
    /// their capacities.
    pub open spec fn clients_ok(self) -> bool {
        &&& forall|i: int, j: int|
            0 <= i < j < self.clients.len() ==> #[trigger] self.clients[i].id != #[trigger] self.clients[j].id
        &&& forall|i: int| 0 <= i < self.clients.len() ==> (#[trigger] self.clients[i]).id < self.next_id
        &&& forall|i: int| 0 <= i < self.clients.len() ==> (#[trigger] self.clients[i]).wf()
    }

    /// User ids are distinct.
    pub open spec fn users_ok(self) -> bool {
        forall|i: int, j: int|
            0 <= i < j < self.users.len() ==> #[trigger] self.users[i].id != #[trigger] self.users[j].id
    }

    /// Canonical nicks are distinct, and entry `i` of the nick table is the
    /// canonical nick of user `i`.
    pub open spec fn nicks_ok(self) -> bool {
        &&& self.nicks.len() == self.users.len()
        &&& forall|i: int, j: int|
            0 <= i < j < self.nicks.len() ==> #[trigger] self.nicks[i].nick != #[trigger] self.nicks[j].nick
        &&& forall|i: int|
            0 <= i < self.nicks.len() ==> (#[trigger] self.nicks[i]).user_id == self.users[i].id
                && self.nicks[i].nick == canonical(self.users[i].nick)
    }

    /// A client is a user exactly when the user table says so: a client of
    /// type `User(uid)` has id `uid` and a user record, and each user record
    /// has such a client.
    pub open spec fn links_ok(self) -> bool {
        &&& forall|i: int|
            0 <= i < self.clients.len() ==> match (#[trigger] self.clients[i]).client_type {
                ClientTypeView::User(uid) => uid == self.clients[i].id && self.has_user(uid),
                _ => true,
            }
        &&& forall|j: int| 0 <= j < self.users.len() ==> self.has_user_client((#[trigger] self.users[j]).id)
    }

    /// Channel names are distinct; within a channel the members are
    /// distinct, and each member's nick is in the nick table.
    pub open spec fn channels_ok(self) -> bool {
        &&& forall|i: int, j: int|
            0 <= i < j < self.channels.len() ==> #[trigger] self.channels[i].name != #[trigger] self.channels[j].name
        &&& forall|c: int| 0 <= c < self.channels.len() ==> (#[trigger] self.channels[c]).members_distinct()
        &&& forall|c: int, m: int|
            0 <= c < self.channels.len() && 0 <= m < self.channels[c].users.len() ==> self.nick_taken(
                #[trigger] self.channels[c].users[m].nick,
            )
    }

    /// The registry is consistent.
    pub open spec fn wf(self) -> bool {
        &&& self.clients_ok()
        &&& self.users_ok()
        &&& self.nicks_ok()
        &&& self.links_ok()
        &&& self.channels_ok()
    }

    // ----- state changes on clients -----

    /// The client that a new connection gets.
    pub open spec fn fresh_client(id: u32) -> ClientView {
        ClientView {
            id,
            client_type: ClientTypeView::Unknown,
            input: Seq::empty(),
            output: Seq::empty(),
            has_handler: false,
            dead: false,
        }
    }

    /// The registry after it has given out its next id.
    pub open spec fn allocate(self) -> CoreView {
        CoreView { next_id: (self.next_id + 1) as u32, ..self }
    }

    /// The registry with one more client.
    pub open spec fn insert(self, c: ClientView) -> CoreView {
        CoreView { clients: self.clients.push(c), ..self }
    }

    /// Whether `c` may be inserted: its id was given out and is not in use,
    /// it is no user yet, and its buffers are within their capacities.
    pub open spec fn accepts(self, c: ClientView) -> bool {
        c.id < self.next_id && !self.has_client(c.id) && !(c.client_type is User) && c.wf()
    }

    /// `line` and its delimiter queued for the client `id`.
    pub open spec fn send_to(self, id: u32, line: Seq<u8>) -> CoreView {
        CoreView {
            clients: self.clients.map_values(|c: ClientView| if c.id == id { c.queue_line(line) } else { c }),
            ..self
        }
    }

    /// `line` and its delimiter queued for every client whose id is among
    /// `targets`.
    pub open spec fn broadcast(self, targets: Seq<u32>, line: Seq<u8>) -> CoreView {
        CoreView {
            clients: self.clients.map_values(
                |c: ClientView| if targets.contains(c.id) { c.queue_line(line) } else { c },
            ),
            ..self
        }
    }

    /// The client `id` marked dead.
    pub open spec fn kill(self, id: u32) -> CoreView {
        CoreView {
            clients: self.clients.map_values(|c: ClientView| if c.id == id { c.killed() } else { c }),
            ..self
        }
    }

    /// The client `id` in another protocol state.
    pub open spec fn set_type(self, id: u32, t: ClientTypeView) -> CoreView {
        CoreView {
            clients: self.clients.map_values(|c: ClientView| if c.id == id { c.with_type(t) } else { c }),
            ..self
        }
    }

    /// The same clients as `other`, up to output and flags: ids and input
    /// agree position by position.
    pub open spec fn same_inputs(self, other: CoreView) -> bool {
        &&& self.clients.len() == other.clients.len()
        &&& forall|i: int|
            0 <= i < self.clients.len() ==> (#[trigger] self.clients[i]).id == other.clients[i].id
                && self.clients[i].input == other.clients[i].input
    }

    /// The same clients as `other`, up to buffers and flags: ids and
    /// protocol states agree position by position.
    pub open spec fn same_identities(self, other: CoreView) -> bool {
        &&& self.clients.len() == other.clients.len()
        &&& forall|i: int|
            0 <= i < self.clients.len() ==> (#[trigger] self.clients[i]).id == other.clients[i].id
                && self.clients[i].client_type == other.clients[i].client_type && self.clients[i].wf()
        &&& self.next_id == other.next_id
        &&& self.nicks == other.nicks
        &&& self.users == other.users
        &&& self.channels == other.channels
        &&& self.servers == other.servers
    }

    // ----- registration and change of nick -----

    /// The record of a user just registered.
    pub open spec fn fresh_user(
        id: u32,
        nick: Seq<char>,
        username: Seq<char>,
        real_name: Seq<char>,
        host: HostView,
    ) -> UserView {
        UserView {
            id,
            nick,
            username,
            real_name,
            host,
            channel_list: Seq::empty(),
            flags: UserFlags { registered: true },
        }
    }

    /// Registration of the client `id` as a user: a user record and a nick
    /// entry are added and the client becomes `User(id)`.
    pub open spec fn register(
        self,
        id: u32,
        nick: Seq<char>,
        username: Seq<char>,
        real_name: Seq<char>,
        host: HostView,
    ) -> CoreView {
        CoreView {
            clients: self.set_type(id, ClientTypeView::User(id)).clients,
            users: self.users.push(Self::fresh_user(id, nick, username, real_name, host)),
            nicks: self.nicks.push(NickView { nick: canonical(nick), user_id: id }),
            ..self
        }
    }

    /// The user `uid` under the nick `nick`: its record, its nick entry and
    /// its membership keys change.
    pub open spec fn rename(self, uid: u32, nick: Seq<char>) -> CoreView {
        let i = self.user_pos(uid);
        let old_key = self.nicks[i].nick;
        CoreView {
            users: self.users.update(i, UserView { nick, ..self.users[i] }),
            nicks: self.nicks.update(i, NickView { nick: canonical(nick), user_id: uid }),
            channels: self.channels.map_values(|ch: ChannelView| ch.with_renamed(old_key, canonical(nick))),
            ..self
        }
    }

    // ----- channels and teardown -----

    /// A channel just created: no member, no topic.
    pub open spec fn empty_channel(key: Seq<char>) -> ChannelView {
        ChannelView { name: key, users: Seq::empty(), topic: Seq::empty() }
    }

    /// The registry with a channel named `key`: created where there was none.
    pub open spec fn ensure_channel(self, key: Seq<char>) -> CoreView {
        if self.has_channel(key) {
            self
        } else {
            CoreView { channels: self.channels.push(Self::empty_channel(key)), ..self }
        }
    }

    /// The canonical nick of the user `uid`.
    pub open spec fn user_key(self, uid: u32) -> Seq<char> {
        self.nicks[self.user_pos(uid)].nick
    }

    /// Whether the user `uid` is a member of the channel `key`.
    pub open spec fn is_member(self, uid: u32, key: Seq<char>) -> bool {
        self.has_channel(key) && self.channel(key).has_member(self.user_key(uid))
    }

    /// The user `uid` joins the channel `key`, which is created where there
    /// was none; the channel is added to the user's list.
    pub open spec fn join(self, uid: u32, key: Seq<char>) -> CoreView {
        let s1 = self.ensure_channel(key);
        let p = s1.channel_pos(key);
        let i = self.user_pos(uid);
        CoreView {
            channels: s1.channels.update(p, s1.channels[p].with_member(self.user_key(uid))),
            users: self.users.update(
                i,
                UserView { channel_list: self.users[i].channel_list.push(key), ..self.users[i] },
            ),
            ..self
        }
    }

    /// The user `uid` leaves the channel `key`; a channel left empty goes,
    /// and the channel leaves the user's list.
    pub open spec fn part(self, uid: u32, key: Seq<char>) -> CoreView {
        let p = self.channel_pos(key);
        let i = self.user_pos(uid);
        let ch = self.channels[p].without_member(self.user_key(uid));
        CoreView {
            channels: if ch.users.len() == 0 {
                self.channels.remove(p)
            } else {
                self.channels.update(p, ch)
            },
            users: self.users.update(
                i,
                UserView {
                    channel_list: self.users[i].channel_list.filter(other_than(key)),
                    ..self.users[i]
                },
            ),
            ..self
        }
    }

    /// The registry without the user `uid`: its record, its nick entry and
    /// its memberships go.
    pub open spec fn drop_user(self, uid: u32) -> CoreView {
        if self.has_user(uid) {
            let i = self.user_pos(uid);
            let key = self.nicks[i].nick;
            CoreView {
                users: self.users.remove(i),
                nicks: self.nicks.remove(i),
                channels: self.channels.map_values(|ch: ChannelView| ch.without_member(key)),
                ..self
            }
        } else {
            self
        }
    }

    /// The registry without the client `id` and without anything that
    /// refers to it: user record, nick entry, memberships, server links.
    pub open spec fn remove_client(self, id: u32) -> CoreView {
        let s1 = self.drop_user(id);
        CoreView {
            clients: if self.has_client(id) {
                self.clients.remove(self.client_pos(id))
            } else {
                self.clients
            },
            servers: self.servers.filter(not_carried_by(id)),
            ..s1
        }
    }

    /// The ids of the users that are members of `ch`, in the order of the
    /// members.
    pub open spec fn member_ids(self, ch: ChannelView) -> Seq<u32> {
        ch.users.map_values(|m: ChanUserView| self.nick_owner(m.nick))
    }

    /// Whether some table still refers to the client `id`.
    pub open spec fn refers_to(self, id: u32) -> bool {
        ||| self.has_client(id)
        ||| self.has_user(id)
        ||| exists|k: int| 0 <= k < self.nicks.len() && (#[trigger] self.nicks[k]).user_id == id
        ||| exists|c: int, m: int|
            0 <= c < self.channels.len() && 0 <= m < self.channels[c].users.len() && self.nick_owner(
                #[trigger] self.channels[c].users[m].nick,
            ) == id
        ||| exists|k: int| 0 <= k < self.servers.len() && (#[trigger] self.servers[k]).client_id == id
    }

    // ----- fan-out, farewell and replies -----

    /// `line` and its delimiter queued for every client whose id is among
    /// `targets`, but for the client `skip`.
    pub open spec fn broadcast_except(self, targets: Seq<u32>, skip: u32, line: Seq<u8>) -> CoreView {
        CoreView {
            clients: self.clients.map_values(
                |c: ClientView| if targets.contains(c.id) && c.id != skip { c.queue_line(line) } else { c },
            ),
            ..self
        }
    }

    /// The user `uid` out of every channel; its list of channels is empty.
    pub open spec fn leave_all(self, uid: u32) -> CoreView {
        let i = self.user_pos(uid);
        let key = self.nicks[i].nick;
        CoreView {
            channels: self.channels.map_values(|ch: ChannelView| ch.without_member(key)),
            users: self.users.update(i, UserView { channel_list: Seq::empty(), ..self.users[i] }),
            ..self
        }
    }

    /// The ids of the members of those among the first `n` channels that
    /// have the member `key`.
    pub open spec fn peer_ids_upto(self, key: Seq<char>, n: int) -> Seq<u32>
        decreases n,
    {
        if n <= 0 {
            Seq::empty()
        } else {
            self.peer_ids_upto(key, n - 1) + (if self.channels[n - 1].has_member(key) {
                self.member_ids(self.channels[n - 1])
            } else {
                Seq::empty()
            })
        }
    }

    /// The ids of the members of every channel that has the member `key`.
    pub open spec fn peer_ids(self, key: Seq<char>) -> Seq<u32> {
        self.peer_ids_upto(key, self.channels.len() as int)
    }

    /// How a numeric reply addresses the client `id`: by its nick where it
    /// has one, else by `*`.
    pub open spec fn reply_name(self, id: u32) -> Seq<char> {
        if !self.has_client(id) {
            "*"@
        } else {
            match self.client(id).client_type {
                ClientTypeView::User(uid) => if self.has_user(uid) {
                    self.user(uid).nick
                } else {
                    "*"@
                },
                ClientTypeView::ProtoUser(p) => match p.nick {
                    Some(n) => n,
                    None => "*"@,
                },
                _ => "*"@,
            }
        }
    }

    // ----- buffers -----

    /// The client `id` with other bytes in its input buffer.
    pub open spec fn set_input(self, id: u32, input: Seq<u8>) -> CoreView {
        CoreView {
            clients: self.clients.map_values(|c: ClientView| if c.id == id { c.with_input(input) } else { c }),
            ..self
        }
    }

    /// The client `id` with other bytes in its output buffer.
    pub open spec fn set_output(self, id: u32, output: Seq<u8>) -> CoreView {
        CoreView {
            clients: self.clients.map_values(|c: ClientView| if c.id == id { c.with_output(output) } else { c }),
            ..self
        }
    }

    // ----- wake handles -----

    /// The client `id` with the handle of its task known.
    pub open spec fn set_handler(self, id: u32) -> CoreView {
        CoreView {
            clients: self.clients.map_values(
                |c: ClientView| if c.id == id { ClientView { has_handler: true, ..c } } else { c },
            ),
            ..self
        }
    }

    /// The ids of the clients, oldest first.
    pub open spec fn client_ids(self) -> Seq<u32> {
        self.clients.map_values(|c: ClientView| c.id)
    }
}

} // verus!
