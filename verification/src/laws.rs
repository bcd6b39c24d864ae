//! Laws of the registry: where its entries are found, that each state
//! change keeps it consistent, and what consistency means for users,
//! nicks and channel members.

use vstd::prelude::*;
use crate::buffer::{MAX_BUFFER_SIZE, MAX_MSG_SIZE};
use crate::client::{ClientTypeView, ClientView};
use crate::irc::{ChannelView, HostView};
use crate::model::{after_removal, before_removal, not_carried_by, CoreView};
use crate::text::canonical;

verus! {

/// In a consistent registry a client is found at one position only.
pub proof fn lemma_client_pos(s: CoreView, i: int)
    requires
        s.clients_ok(),
        0 <= i < s.clients.len(),
    ensures
        s.has_client(s.clients[i].id),
        s.client_pos(s.clients[i].id) == i,
        s.client(s.clients[i].id) == s.clients[i],
{
    let id = s.clients[i].id;
    let k = s.client_pos(id);
    assert(0 <= k < s.clients.len() && s.clients[k].id == id);
    if k < i {
        assert(s.clients[k].id != s.clients[i].id);
    } else if i < k {
        assert(s.clients[i].id != s.clients[k].id);
    }
}

/// In a consistent registry a user is found at one position only.
pub proof fn lemma_user_pos(s: CoreView, i: int)
    requires
        s.users_ok(),
        0 <= i < s.users.len(),
    ensures
        s.has_user(s.users[i].id),
        s.user_pos(s.users[i].id) == i,
        s.user(s.users[i].id) == s.users[i],
{
    let id = s.users[i].id;
    let k = s.user_pos(id);
    assert(0 <= k < s.users.len() && s.users[k].id == id);
    if k < i {
        assert(s.users[k].id != s.users[i].id);
    } else if i < k {
        assert(s.users[i].id != s.users[k].id);
    }
}

/// In a consistent registry a nick is found at one position only, which is
/// also the position of the user that holds it.
pub proof fn lemma_nick_pos(s: CoreView, i: int)
    requires
        s.nicks_ok(),
        0 <= i < s.nicks.len(),
    ensures
        s.nick_taken(s.nicks[i].nick),
        s.nick_pos(s.nicks[i].nick) == i,
        s.nick_owner(s.nicks[i].nick) == s.users[i].id,
{
    let key = s.nicks[i].nick;
    let k = s.nick_pos(key);
    assert(0 <= k < s.nicks.len() && s.nicks[k].nick == key);
    if k < i {
        assert(s.nicks[k].nick != s.nicks[i].nick);
    } else if i < k {
        assert(s.nicks[i].nick != s.nicks[k].nick);
    }
}

/// In a consistent registry a channel is found at one position only.
pub proof fn lemma_channel_pos(s: CoreView, i: int)
    requires
        s.channels_ok(),
        0 <= i < s.channels.len(),
    ensures
        s.has_channel(s.channels[i].name),
        s.channel_pos(s.channels[i].name) == i,
        s.channel(s.channels[i].name) == s.channels[i],
{
    let key = s.channels[i].name;
    let k = s.channel_pos(key);
    assert(0 <= k < s.channels.len() && s.channels[k].name == key);
    if k < i {
        assert(s.channels[k].name != s.channels[i].name);
    } else if i < k {
        assert(s.channels[i].name != s.channels[k].name);
    }
}

/// Among distinct members a nick is found at one position only.
pub proof fn lemma_member_pos(ch: ChannelView, m: int)
    requires
        ch.members_distinct(),
        0 <= m < ch.users.len(),
    ensures
        ch.has_member(ch.users[m].nick),
        ch.member_pos(ch.users[m].nick) == m,
{
    let key = ch.users[m].nick;
    let k = ch.member_pos(key);
    assert(0 <= k < ch.users.len() && ch.users[k].nick == key);
    if k < m {
        assert(ch.users[k].nick != ch.users[m].nick);
    } else if m < k {
        assert(ch.users[m].nick != ch.users[k].nick);
    }
}

/// Changing only buffers and flags of clients keeps the registry consistent.
pub proof fn lemma_same_identities_wf(pre: CoreView, post: CoreView)
    requires
        pre.wf(),
        post.same_identities(pre),
    ensures
        post.wf(),
{
    assert(post.clients_ok());
    assert(post.links_ok()) by {
        assert forall|i: int| 0 <= i < post.clients.len() implies match (#[trigger] post.clients[i]).client_type {
            ClientTypeView::User(uid) => uid == post.clients[i].id && post.has_user(uid),
            _ => true,
        } by {
            assert(pre.clients[i].client_type == post.clients[i].client_type);
        }
        assert forall|j: int| 0 <= j < post.users.len() implies post.has_user_client(
            (#[trigger] post.users[j]).id,
        ) by {
            let uid = pre.users[j].id;
            assert(pre.has_user_client(uid));
            let i = choose|i: int|
                0 <= i < pre.clients.len() && #[trigger] pre.clients[i].id == uid && pre.clients[i].client_type
                    == ClientTypeView::User(uid);
            assert(post.clients[i].id == uid);
        }
    }
    assert(post.channels_ok());
}

/// Queued lines, in any number, keep the registry consistent.
pub proof fn lemma_broadcast_wf(s: CoreView, targets: Seq<u32>, line: Seq<u8>)
    requires
        s.wf(),
    ensures
        s.broadcast(targets, line).wf(),
        s.broadcast(targets, line).same_identities(s),
{
    let t = s.broadcast(targets, line);
    assert forall|i: int| 0 <= i < t.clients.len() implies (#[trigger] t.clients[i]).id == s.clients[i].id
        && t.clients[i].client_type == s.clients[i].client_type && t.clients[i].wf() by {
        assert(s.clients[i].wf());
    }
    lemma_same_identities_wf(s, t);
}

/// A line queued for one client keeps the registry consistent.
pub proof fn lemma_send_to_wf(s: CoreView, id: u32, line: Seq<u8>)
    requires
        s.wf(),
    ensures
        s.send_to(id, line).wf(),
        s.send_to(id, line).same_identities(s),
{
    let t = s.send_to(id, line);
    assert forall|i: int| 0 <= i < t.clients.len() implies (#[trigger] t.clients[i]).id == s.clients[i].id
        && t.clients[i].client_type == s.clients[i].client_type && t.clients[i].wf() by {
        assert(s.clients[i].wf());
    }
    lemma_same_identities_wf(s, t);
}

/// Marking a client dead keeps the registry consistent.
pub proof fn lemma_kill_wf(s: CoreView, id: u32)
    requires
        s.wf(),
    ensures
        s.kill(id).wf(),
        s.kill(id).same_identities(s),
{
    let t = s.kill(id);
    assert forall|i: int| 0 <= i < t.clients.len() implies (#[trigger] t.clients[i]).id == s.clients[i].id
        && t.clients[i].client_type == s.clients[i].client_type && t.clients[i].wf() by {
        assert(s.clients[i].wf());
    }
    lemma_same_identities_wf(s, t);
}

/// Giving out an id keeps the registry consistent, and the id is fresh.
pub proof fn lemma_allocate_wf(s: CoreView)
    requires
        s.wf(),
        s.next_id < u32::MAX,
    ensures
        s.allocate().wf(),
        !s.has_client(s.next_id),
        s.allocate().accepts(CoreView::fresh_client(s.next_id)),
{
    let t = s.allocate();
    assert forall|i: int| 0 <= i < t.clients.len() implies (#[trigger] t.clients[i]).id < t.next_id by {
        assert(s.clients[i].id < s.next_id);
    }
    assert(t.clients_ok());
    assert(t.links_ok()) by {
        assert forall|j: int| 0 <= j < t.users.len() implies t.has_user_client((#[trigger] t.users[j]).id) by {
            assert(s.has_user_client(s.users[j].id));
        }
    }
    assert forall|c: int, m: int|
        0 <= c < t.channels.len() && 0 <= m < t.channels[c].users.len() implies t.nick_taken(
        #[trigger] t.channels[c].users[m].nick,
    ) by {
        assert(s.nick_taken(s.channels[c].users[m].nick));
        lemma_nick_taken_same(s, t, s.channels[c].users[m].nick);
    }
    if s.has_client(s.next_id) {
        let i = s.client_pos(s.next_id);
        assert(s.clients[i].id < s.next_id);
    }
}

/// Inserting a client that the registry accepts keeps it consistent.
pub proof fn lemma_insert_wf(s: CoreView, c: ClientView)
    requires
        s.wf(),
        s.accepts(c),
    ensures
        s.insert(c).wf(),
        s.insert(c).has_client(c.id),
{
    let t = s.insert(c);
    let n = s.clients.len() as int;
    assert(t.clients[n].id == c.id);
    assert forall|i: int| 0 <= i < t.clients.len() implies (#[trigger] t.clients[i]).id < t.next_id by {
        if i < n {
            assert(s.clients[i].id < s.next_id);
        }
    }
    assert forall|i: int, j: int| 0 <= i < j < t.clients.len() implies #[trigger] t.clients[i].id
        != #[trigger] t.clients[j].id by {
        if j < n {
            assert(s.clients[i].id != s.clients[j].id);
        } else {
            assert(t.clients[i] == s.clients[i]);
            if s.clients[i].id == c.id {
                assert(s.has_client(c.id));
            }
        }
    }
    assert forall|i: int| 0 <= i < t.clients.len() implies (#[trigger] t.clients[i]).wf() by {
        if i < n {
            assert(s.clients[i].wf());
        }
    }
    assert(t.links_ok()) by {
        assert forall|i: int| 0 <= i < t.clients.len() implies match (#[trigger] t.clients[i]).client_type {
            ClientTypeView::User(uid) => uid == t.clients[i].id && t.has_user(uid),
            _ => true,
        } by {
            if i < n {
                assert(t.clients[i] == s.clients[i]);
            }
        }
        assert forall|j: int| 0 <= j < t.users.len() implies t.has_user_client((#[trigger] t.users[j]).id) by {
            let uid = s.users[j].id;
            assert(s.has_user_client(uid));
            let i = choose|i: int|
                0 <= i < s.clients.len() && #[trigger] s.clients[i].id == uid && s.clients[i].client_type
                    == ClientTypeView::User(uid);
            assert(t.clients[i] == s.clients[i]);
        }
    }
    assert(t.channels == s.channels && t.nicks == s.nicks);
    assert forall|c2: int, m: int|
        0 <= c2 < t.channels.len() && 0 <= m < t.channels[c2].users.len() implies t.nick_taken(
        #[trigger] t.channels[c2].users[m].nick,
    ) by {
        assert(s.nick_taken(s.channels[c2].users[m].nick));
    }
}

/// A client that is no user may change its protocol state to another that
/// is no user.
pub proof fn lemma_set_type_wf(s: CoreView, id: u32, t: ClientTypeView)
    requires
        s.wf(),
        !(t is User),
        s.has_client(id) ==> !(s.client(id).client_type is User),
    ensures
        s.set_type(id, t).wf(),
{
    let r = s.set_type(id, t);
    assert forall|i: int| 0 <= i < r.clients.len() implies (#[trigger] r.clients[i]).id == s.clients[i].id
        && r.clients[i].wf() by {
        assert(s.clients[i].wf());
    }
    assert(r.clients_ok()) by {
        assert forall|i: int, j: int| 0 <= i < j < r.clients.len() implies #[trigger] r.clients[i].id
            != #[trigger] r.clients[j].id by {
            assert(s.clients[i].id != s.clients[j].id);
        }
        assert forall|i: int| 0 <= i < r.clients.len() implies (#[trigger] r.clients[i]).id < r.next_id by {
            assert(s.clients[i].id < s.next_id);
        }
    }
    assert(r.links_ok()) by {
        assert forall|i: int| 0 <= i < r.clients.len() implies match (#[trigger] r.clients[i]).client_type {
            ClientTypeView::User(uid) => uid == r.clients[i].id && r.has_user(uid),
            _ => true,
        } by {
            if s.clients[i].id != id {
                assert(r.clients[i] == s.clients[i]);
            }
        }
        assert forall|j: int| 0 <= j < r.users.len() implies r.has_user_client((#[trigger] r.users[j]).id) by {
            let uid = s.users[j].id;
            assert(s.has_user_client(uid));
            let i = choose|i: int|
                0 <= i < s.clients.len() && #[trigger] s.clients[i].id == uid && s.clients[i].client_type
                    == ClientTypeView::User(uid);
            lemma_client_pos(s, i);
            assert(uid != id);
            assert(r.clients[i] == s.clients[i]);
        }
    }
    assert(r.channels == s.channels && r.nicks == s.nicks);
    assert forall|c: int, m: int|
        0 <= c < r.channels.len() && 0 <= m < r.channels[c].users.len() implies r.nick_taken(
        #[trigger] r.channels[c].users[m].nick,
    ) by {
        assert(s.nick_taken(s.channels[c].users[m].nick));
    }
}

/// Registration under a free nick keeps the registry consistent.
pub proof fn lemma_register_wf(
    s: CoreView,
    id: u32,
    nick: Seq<char>,
    username: Seq<char>,
    real_name: Seq<char>,
    host: HostView,
)
    requires
        s.wf(),
        s.has_client(id),
        !(s.client(id).client_type is User),
        !s.nick_taken(canonical(nick)),
    ensures
        s.register(id, nick, username, real_name, host).wf(),
        !s.has_user(id),
{
    let r = s.register(id, nick, username, real_name, host);
    let n = s.users.len() as int;
    let p = s.client_pos(id);
    lemma_client_pos(s, p);
    if s.has_user(id) {
        let j = s.user_pos(id);
        assert(s.has_user_client(s.users[j].id));
        let i = choose|i: int|
            0 <= i < s.clients.len() && #[trigger] s.clients[i].id == id && s.clients[i].client_type
                == ClientTypeView::User(id);
        lemma_client_pos(s, i);
    }
    assert forall|i: int| 0 <= i < r.clients.len() implies (#[trigger] r.clients[i]).id == s.clients[i].id
        && r.clients[i].wf() by {
        assert(s.clients[i].wf());
    }
    assert(r.clients_ok()) by {
        assert forall|i: int, j: int| 0 <= i < j < r.clients.len() implies #[trigger] r.clients[i].id
            != #[trigger] r.clients[j].id by {
            assert(s.clients[i].id != s.clients[j].id);
        }
        assert forall|i: int| 0 <= i < r.clients.len() implies (#[trigger] r.clients[i]).id < r.next_id by {
            assert(s.clients[i].id < s.next_id);
        }
    }
    assert(r.users_ok()) by {
        assert forall|i: int, j: int| 0 <= i < j < r.users.len() implies #[trigger] r.users[i].id
            != #[trigger] r.users[j].id by {
            if j < n {
                assert(s.users[i].id != s.users[j].id);
            } else {
                assert(r.users[i] == s.users[i]);
                if s.users[i].id == id {
                    assert(s.has_user(id));
                }
            }
        }
    }
    assert(r.nicks_ok()) by {
        assert forall|i: int, j: int| 0 <= i < j < r.nicks.len() implies #[trigger] r.nicks[i].nick
            != #[trigger] r.nicks[j].nick by {
            if j < n {
                assert(s.nicks[i].nick != s.nicks[j].nick);
            } else {
                assert(r.nicks[i] == s.nicks[i]);
                if s.nicks[i].nick == canonical(nick) {
                    assert(s.nick_taken(canonical(nick)));
                }
            }
        }
        assert forall|i: int| 0 <= i < r.nicks.len() implies (#[trigger] r.nicks[i]).user_id == r.users[i].id
            && r.nicks[i].nick == canonical(r.users[i].nick) by {
            if i < n {
                assert(s.nicks[i].user_id == s.users[i].id);
            }
        }
    }
    assert(r.links_ok()) by {
        assert(r.users[n].id == id);
        assert forall|i: int| 0 <= i < r.clients.len() implies match (#[trigger] r.clients[i]).client_type {
            ClientTypeView::User(uid) => uid == r.clients[i].id && r.has_user(uid),
            _ => true,
        } by {
            if s.clients[i].id != id {
                assert(r.clients[i] == s.clients[i]);
                match s.clients[i].client_type {
                    ClientTypeView::User(uid) => {
                        assert(s.has_user(uid));
                        let j = s.user_pos(uid);
                        assert(r.users[j].id == uid);
                    },
                    _ => {},
                }
            }
        }
        assert forall|j: int| 0 <= j < r.users.len() implies r.has_user_client((#[trigger] r.users[j]).id) by {
            if j < n {
                let uid = s.users[j].id;
                assert(r.users[j] == s.users[j]);
                assert(s.has_user_client(uid));
                let i = choose|i: int|
                    0 <= i < s.clients.len() && #[trigger] s.clients[i].id == uid && s.clients[i].client_type
                        == ClientTypeView::User(uid);
                lemma_client_pos(s, i);
                assert(uid != id);
                assert(r.clients[i] == s.clients[i]);
            } else {
                assert(r.clients[p].id == id);
                assert(r.clients[p].client_type == ClientTypeView::User(id));
            }
        }
    }
    assert(r.channels == s.channels);
    assert forall|c: int, m: int|
        0 <= c < r.channels.len() && 0 <= m < r.channels[c].users.len() implies r.nick_taken(
        #[trigger] r.channels[c].users[m].nick,
    ) by {
        let key = s.channels[c].users[m].nick;
        assert(s.nick_taken(key));
        let k = s.nick_pos(key);
        assert(r.nicks[k].nick == key);
    }
}

/// A change of nick to a free one, or to another spelling of one's own,
/// keeps the registry consistent.
pub proof fn lemma_rename_wf(s: CoreView, uid: u32, nick: Seq<char>)
    requires
        s.wf(),
        s.has_user(uid),
        !s.nick_taken(canonical(nick)) || s.nick_owner(canonical(nick)) == uid,
    ensures
        s.rename(uid, nick).wf(),
{
    let r = s.rename(uid, nick);
    let i = s.user_pos(uid);
    lemma_user_pos(s, i);
    lemma_nick_pos(s, i);
    let old_key = s.nicks[i].nick;
    let new_key = canonical(nick);
    // a nick entry other than the user's own never holds the new key
    assert forall|k: int| 0 <= k < s.nicks.len() && k != i implies (#[trigger] s.nicks[k]).nick != new_key by {
        if s.nicks[k].nick == new_key {
            lemma_nick_pos(s, k);
            assert(s.nick_owner(new_key) == s.users[k].id);
            if k < i {
                assert(s.users[k].id != s.users[i].id);
            } else {
                assert(s.users[i].id != s.users[k].id);
            }
        }
    }
    assert(r.clients_ok());
    assert(r.users_ok()) by {
        assert forall|a: int, b: int| 0 <= a < b < r.users.len() implies #[trigger] r.users[a].id
            != #[trigger] r.users[b].id by {
            assert(s.users[a].id != s.users[b].id);
        }
    }
    assert(r.nicks_ok()) by {
        assert forall|a: int, b: int| 0 <= a < b < r.nicks.len() implies #[trigger] r.nicks[a].nick
            != #[trigger] r.nicks[b].nick by {
            assert(s.nicks[a].nick != s.nicks[b].nick);
            if a == i {
                assert(s.nicks[b].nick != new_key);
            } else if b == i {
                assert(s.nicks[a].nick != new_key);
            }
        }
        assert forall|k: int| 0 <= k < r.nicks.len() implies (#[trigger] r.nicks[k]).user_id == r.users[k].id
            && r.nicks[k].nick == canonical(r.users[k].nick) by {
            assert(s.nicks[k].user_id == s.users[k].id);
        }
    }
    assert(r.links_ok()) by {
        assert forall|c: int| 0 <= c < r.clients.len() implies match (#[trigger] r.clients[c]).client_type {
            ClientTypeView::User(u) => u == r.clients[c].id && r.has_user(u),
            _ => true,
        } by {
            match s.clients[c].client_type {
                ClientTypeView::User(u) => {
                    assert(s.has_user(u));
                    let j = s.user_pos(u);
                    assert(r.users[j].id == u);
                },
                _ => {},
            }
        }
        assert forall|j: int| 0 <= j < r.users.len() implies r.has_user_client((#[trigger] r.users[j]).id) by {
            assert(r.users[j].id == s.users[j].id);
            assert(s.has_user_client(s.users[j].id));
        }
    }
    assert(r.channels_ok()) by {
        assert forall|a: int, b: int| 0 <= a < b < r.channels.len() implies #[trigger] r.channels[a].name
            != #[trigger] r.channels[b].name by {
            assert(s.channels[a].name != s.channels[b].name);
        }
        assert forall|c: int, m: int|
            0 <= c < r.channels.len() && 0 <= m < r.channels[c].users.len() implies r.nick_taken(
            #[trigger] r.channels[c].users[m].nick,
        ) by {
            let k0 = s.channels[c].users[m].nick;
            assert(s.nick_taken(k0));
            let q = s.nick_pos(k0);
            if k0 == old_key {
                assert(r.nicks[i].nick == new_key);
            } else {
                assert(q != i);
                assert(r.nicks[q].nick == k0);
            }
        }
        assert forall|c: int| 0 <= c < r.channels.len() implies (#[trigger] r.channels[c]).members_distinct() by {
            let ch = s.channels[c];
            let rc = r.channels[c];
            assert(ch.members_distinct());
            assert forall|a: int, b: int| 0 <= a < b < rc.users.len() implies #[trigger] rc.users[a].nick
                != #[trigger] rc.users[b].nick by {
                assert(ch.users[a].nick != ch.users[b].nick);
                assert(s.nick_taken(s.channels[c].users[a].nick));
                assert(s.nick_taken(s.channels[c].users[b].nick));
                let qa = s.nick_pos(ch.users[a].nick);
                let qb = s.nick_pos(ch.users[b].nick);
                if ch.users[a].nick == old_key {
                    assert(qb != i);
                    assert(s.nicks[qb].nick != new_key);
                } else if ch.users[b].nick == old_key {
                    assert(qa != i);
                    assert(s.nicks[qa].nick != new_key);
                }
            }
        }
    }
}

/// How a filter treats the last element of a sequence.
pub proof fn lemma_filter_last<A>(t: Seq<A>, f: spec_fn(A) -> bool)
    ensures
        t.len() == 0 ==> t.filter(f) == t,
        t.len() > 0 ==> t.filter(f) == if f(t.last()) {
            t.drop_last().filter(f).push(t.last())
        } else {
            t.drop_last().filter(f)
        },
{
    reveal(Seq::filter);
}

/// A nick that is taken stays taken while the nick table stays as it is.
pub proof fn lemma_nick_taken_same(s: CoreView, r: CoreView, key: Seq<char>)
    requires
        s.nick_taken(key),
        r.nicks == s.nicks,
    ensures
        r.nick_taken(key),
{
    let q = s.nick_pos(key);
    assert(r.nicks[q].nick == key);
}

proof fn lemma_removed<A>(s: Seq<A>, i: int)
    requires
        0 <= i < s.len(),
    ensures
        s.remove(i).len() == s.len() - 1,
        forall|k: int| 0 <= k < s.len() - 1 ==> #[trigger] s.remove(i)[k] == s[before_removal(i, k)],
{
    s.remove_ensures(i);
}

/// Removing a member keeps the others distinct and drops the nick.
pub proof fn lemma_without_member(ch: ChannelView, key: Seq<char>)
    requires
        ch.members_distinct(),
    ensures
        ch.without_member(key).members_distinct(),
        !ch.without_member(key).has_member(key),
        ch.without_member(key).name == ch.name,
        forall|m: int|
            0 <= m < ch.without_member(key).users.len() ==> ch.has_member(
                (#[trigger] ch.without_member(key).users[m]).nick,
            ),
{
    let r = ch.without_member(key);
    if ch.has_member(key) {
        let p = ch.member_pos(key);
        lemma_removed(ch.users, p);
        assert forall|a: int, b: int| 0 <= a < b < r.users.len() implies #[trigger] r.users[a].nick
            != #[trigger] r.users[b].nick by {
            assert(ch.users[before_removal(p, a)].nick != ch.users[before_removal(p, b)].nick);
        }
        if r.has_member(key) {
            let m = r.member_pos(key);
            let q = before_removal(p, m);
            assert(ch.users[q].nick == key);
            if q < p {
                assert(ch.users[q].nick != ch.users[p].nick);
            } else {
                assert(ch.users[p].nick != ch.users[q].nick);
            }
        }
        assert forall|m: int| 0 <= m < r.users.len() implies ch.has_member((#[trigger] r.users[m]).nick) by {
            assert(ch.users[before_removal(p, m)].nick == r.users[m].nick);
        }
    } else {
        assert forall|m: int| 0 <= m < r.users.len() implies ch.has_member((#[trigger] r.users[m]).nick) by {
            assert(ch.users[m].nick == r.users[m].nick);
        }
    }
}

/// Changes that leave clients, nicks and the users' ids and nicks alone
/// keep the registry consistent, provided the channels are.
pub proof fn lemma_tables_wf(s: CoreView, r: CoreView)
    requires
        s.wf(),
        r.clients == s.clients,
        r.next_id == s.next_id,
        r.nicks == s.nicks,
        r.users.len() == s.users.len(),
        forall|j: int|
            0 <= j < s.users.len() ==> (#[trigger] r.users[j]).id == s.users[j].id && r.users[j].nick
                == s.users[j].nick,
        r.channels_ok(),
    ensures
        r.wf(),
{
    assert(r.clients_ok());
    assert(r.users_ok()) by {
        assert forall|a: int, b: int| 0 <= a < b < r.users.len() implies #[trigger] r.users[a].id
            != #[trigger] r.users[b].id by {
            assert(s.users[a].id != s.users[b].id);
        }
    }
    assert(r.nicks_ok()) by {
        assert forall|k: int| 0 <= k < r.nicks.len() implies (#[trigger] r.nicks[k]).user_id == r.users[k].id
            && r.nicks[k].nick == canonical(r.users[k].nick) by {
            assert(s.nicks[k].user_id == s.users[k].id);
        }
    }
    assert(r.links_ok()) by {
        assert forall|c: int| 0 <= c < r.clients.len() implies match (#[trigger] r.clients[c]).client_type {
            ClientTypeView::User(u) => u == r.clients[c].id && r.has_user(u),
            _ => true,
        } by {
            match s.clients[c].client_type {
                ClientTypeView::User(u) => {
                    assert(s.has_user(u));
                    let j = s.user_pos(u);
                    assert(r.users[j].id == u);
                },
                _ => {},
            }
        }
        assert forall|j: int| 0 <= j < r.users.len() implies r.has_user_client((#[trigger] r.users[j]).id) by {
            assert(r.users[j].id == s.users[j].id);
            assert(s.has_user_client(s.users[j].id));
        }
    }
}

/// Creating a channel where there was none keeps the registry consistent.
pub proof fn lemma_ensure_channel_wf(s: CoreView, key: Seq<char>)
    requires
        s.wf(),
    ensures
        s.ensure_channel(key).wf(),
        s.ensure_channel(key).has_channel(key),
{
    let r = s.ensure_channel(key);
    if !s.has_channel(key) {
        let n = s.channels.len() as int;
        assert(r.channels[n].name == key);
        assert(r.channels_ok()) by {
            assert forall|a: int, b: int| 0 <= a < b < r.channels.len() implies #[trigger] r.channels[a].name
                != #[trigger] r.channels[b].name by {
                if b < n {
                    assert(s.channels[a].name != s.channels[b].name);
                } else {
                    assert(r.channels[a] == s.channels[a]);
                    if s.channels[a].name == key {
                        assert(s.has_channel(key));
                    }
                }
            }
            assert forall|c: int| 0 <= c < r.channels.len() implies (#[trigger] r.channels[c]).members_distinct() by {
                if c < n {
                    assert(s.channels[c].members_distinct());
                }
            }
            assert forall|c: int, m: int|
                0 <= c < r.channels.len() && 0 <= m < r.channels[c].users.len() implies r.nick_taken(
                #[trigger] r.channels[c].users[m].nick,
            ) by {
                assert(r.channels[c] == s.channels[c]);
                assert(s.nick_taken(s.channels[c].users[m].nick));
                lemma_nick_taken_same(s, r, s.channels[c].users[m].nick);
            }
        }
        lemma_tables_wf(s, r);
    }
}

/// Joining a channel that one is no member of keeps the registry
/// consistent, and makes one a member.
pub proof fn lemma_join_wf(s: CoreView, uid: u32, key: Seq<char>)
    requires
        s.wf(),
        s.has_user(uid),
        !s.is_member(uid, key),
    ensures
        s.join(uid, key).wf(),
        s.join(uid, key).is_member(uid, key),
{
    let s1 = s.ensure_channel(key);
    lemma_ensure_channel_wf(s, key);
    let r = s.join(uid, key);
    let p = s1.channel_pos(key);
    let i = s.user_pos(uid);
    lemma_channel_pos(s1, p);
    lemma_nick_pos(s, i);
    let nk = s.user_key(uid);
    let ch = s1.channels[p];
    let n = ch.users.len() as int;
    assert(!ch.has_member(nk)) by {
        if s.has_channel(key) {
            assert(s1 == s);
        }
    }
    assert(r.channels[p].users[n].nick == nk);
    assert(r.channels_ok()) by {
        assert forall|a: int, b: int| 0 <= a < b < r.channels.len() implies #[trigger] r.channels[a].name
            != #[trigger] r.channels[b].name by {
            assert(s1.channels[a].name != s1.channels[b].name);
        }
        assert forall|c: int| 0 <= c < r.channels.len() implies (#[trigger] r.channels[c]).members_distinct() by {
            assert(s1.channels[c].members_distinct());
            if c == p {
                let rc = r.channels[c];
                assert forall|a: int, b: int| 0 <= a < b < rc.users.len() implies #[trigger] rc.users[a].nick
                    != #[trigger] rc.users[b].nick by {
                    if b < n {
                        assert(ch.users[a].nick != ch.users[b].nick);
                    } else {
                        assert(rc.users[a] == ch.users[a]);
                        if ch.users[a].nick == nk {
                            assert(ch.has_member(nk));
                        }
                    }
                }
            }
        }
        assert forall|c: int, m: int|
            0 <= c < r.channels.len() && 0 <= m < r.channels[c].users.len() implies r.nick_taken(
            #[trigger] r.channels[c].users[m].nick,
        ) by {
            if c == p && m == n {
                assert(r.nicks[i].nick == nk);
            } else {
                assert(r.channels[c].users[m] == s1.channels[c].users[m]);
                assert(s1.nick_taken(s1.channels[c].users[m].nick));
                lemma_nick_taken_same(s1, r, s1.channels[c].users[m].nick);
            }
        }
    }
    lemma_tables_wf(s, r);
    lemma_user_pos(s, i);
    lemma_user_pos(r, i);
    lemma_channel_pos(r, p);
    assert(r.channel(key).users[n].nick == r.user_key(uid));
}

/// Leaving a channel keeps the registry consistent, and ends the
/// membership.
pub proof fn lemma_part_wf(s: CoreView, uid: u32, key: Seq<char>)
    requires
        s.wf(),
        s.has_user(uid),
        s.is_member(uid, key),
    ensures
        s.part(uid, key).wf(),
        !s.part(uid, key).is_member(uid, key),
{
    let r = s.part(uid, key);
    let p = s.channel_pos(key);
    let i = s.user_pos(uid);
    lemma_channel_pos(s, p);
    let nk = s.user_key(uid);
    let ch = s.channels[p].without_member(nk);
    lemma_without_member(s.channels[p], nk);
    assert(s.channels[p].members_distinct());
    if ch.users.len() == 0 {
        lemma_removed(s.channels, p);
        assert(r.channels_ok()) by {
            assert forall|a: int, b: int| 0 <= a < b < r.channels.len() implies #[trigger] r.channels[a].name
                != #[trigger] r.channels[b].name by {
                assert(s.channels[before_removal(p, a)].name != s.channels[before_removal(p, b)].name);
            }
            assert forall|c: int| 0 <= c < r.channels.len() implies (#[trigger] r.channels[c]).members_distinct() by {
                assert(s.channels[before_removal(p, c)].members_distinct());
            }
            assert forall|c: int, m: int|
                0 <= c < r.channels.len() && 0 <= m < r.channels[c].users.len() implies r.nick_taken(
                #[trigger] r.channels[c].users[m].nick,
            ) by {
                assert(r.channels[c] == s.channels[before_removal(p, c)]);
                assert(s.nick_taken(s.channels[before_removal(p, c)].users[m].nick));
                lemma_nick_taken_same(s, r, s.channels[before_removal(p, c)].users[m].nick);
            }
        }
        if r.has_channel(key) {
            let q = r.channel_pos(key);
            let q0 = before_removal(p, q);
            assert(s.channels[q0].name == key);
            if q0 < p {
                assert(s.channels[q0].name != s.channels[p].name);
            } else {
                assert(s.channels[p].name != s.channels[q0].name);
            }
        }
    } else {
        assert(r.channels_ok()) by {
            assert forall|a: int, b: int| 0 <= a < b < r.channels.len() implies #[trigger] r.channels[a].name
                != #[trigger] r.channels[b].name by {
                assert(s.channels[a].name != s.channels[b].name);
            }
            assert forall|c: int| 0 <= c < r.channels.len() implies (#[trigger] r.channels[c]).members_distinct() by {
                assert(s.channels[c].members_distinct());
            }
            assert forall|c: int, m: int|
                0 <= c < r.channels.len() && 0 <= m < r.channels[c].users.len() implies r.nick_taken(
                #[trigger] r.channels[c].users[m].nick,
            ) by {
                if c == p {
                    let k0 = ch.users[m].nick;
                    assert(s.channels[p].has_member(k0));
                    let m0 = s.channels[p].member_pos(k0);
                    assert(s.nick_taken(s.channels[p].users[m0].nick));
                    lemma_nick_taken_same(s, r, k0);
                } else {
                    assert(r.channels[c] == s.channels[c]);
                    assert(s.nick_taken(s.channels[c].users[m].nick));
                    lemma_nick_taken_same(s, r, s.channels[c].users[m].nick);
                }
            }
        }
        lemma_tables_wf(s, r);
        lemma_channel_pos(r, p);
    }
    lemma_tables_wf(s, r);
    lemma_user_pos(s, i);
    lemma_user_pos(r, i);
}

proof fn lemma_remove_client_clients(s: CoreView, id: u32)
    requires
        s.wf(),
    ensures
        s.remove_client(id).clients_ok(),
        !s.remove_client(id).has_client(id),
{
    let r = s.remove_client(id);
    if s.has_client(id) {
        let p = s.client_pos(id);
        lemma_removed(s.clients, p);
        assert forall|a: int, b: int| 0 <= a < b < r.clients.len() implies #[trigger] r.clients[a].id
            != #[trigger] r.clients[b].id by {
            assert(s.clients[before_removal(p, a)].id != s.clients[before_removal(p, b)].id);
        }
        assert forall|a: int| 0 <= a < r.clients.len() implies (#[trigger] r.clients[a]).id < r.next_id by {
            assert(s.clients[before_removal(p, a)].id < s.next_id);
        }
        assert forall|a: int| 0 <= a < r.clients.len() implies (#[trigger] r.clients[a]).wf() by {
            assert(s.clients[before_removal(p, a)].wf());
        }
        if r.has_client(id) {
            let q = r.client_pos(id);
            let q0 = before_removal(p, q);
            assert(s.clients[q0].id == id);
            if q0 < p {
                assert(s.clients[q0].id != s.clients[p].id);
            } else {
                assert(s.clients[p].id != s.clients[q0].id);
            }
        }
    } else {
        assert(r.clients == s.clients);
        assert forall|a: int| 0 <= a < r.clients.len() implies (#[trigger] r.clients[a]).id < r.next_id by {
            assert(s.clients[a].id < s.next_id);
        }
    }
}

proof fn lemma_remove_client_users(s: CoreView, id: u32)
    requires
        s.wf(),
    ensures
        s.remove_client(id).users_ok(),
        s.remove_client(id).nicks_ok(),
        !s.remove_client(id).has_user(id),
        forall|k: int|
            0 <= k < s.remove_client(id).nicks.len() ==> (#[trigger] s.remove_client(id).nicks[k]).user_id != id,
{
    let r = s.remove_client(id);
    if s.has_user(id) {
        let i = s.user_pos(id);
        lemma_removed(s.users, i);
        lemma_removed(s.nicks, i);
        assert forall|a: int, b: int| 0 <= a < b < r.users.len() implies #[trigger] r.users[a].id
            != #[trigger] r.users[b].id by {
            assert(s.users[before_removal(i, a)].id != s.users[before_removal(i, b)].id);
        }
        assert forall|a: int, b: int| 0 <= a < b < r.nicks.len() implies #[trigger] r.nicks[a].nick
            != #[trigger] r.nicks[b].nick by {
            assert(s.nicks[before_removal(i, a)].nick != s.nicks[before_removal(i, b)].nick);
        }
        assert forall|k: int| 0 <= k < r.nicks.len() implies (#[trigger] r.nicks[k]).user_id == r.users[k].id
            && r.nicks[k].nick == canonical(r.users[k].nick) && r.nicks[k].user_id != id by {
            let k0 = before_removal(i, k);
            assert(s.nicks[k0].user_id == s.users[k0].id);
            if k0 < i {
                assert(s.users[k0].id != s.users[i].id);
            } else {
                assert(s.users[i].id != s.users[k0].id);
            }
        }
        if r.has_user(id) {
            let q = r.user_pos(id);
            assert(r.nicks[q].user_id == r.users[q].id);
        }
    } else {
        assert(r.users == s.users && r.nicks == s.nicks);
        assert forall|k: int| 0 <= k < r.nicks.len() implies (#[trigger] r.nicks[k]).user_id == r.users[k].id
            && r.nicks[k].nick == canonical(r.users[k].nick) && r.nicks[k].user_id != id by {
            assert(s.nicks[k].user_id == s.users[k].id);
            if s.users[k].id == id {
                assert(s.has_user(id));
            }
        }
    }
}

proof fn lemma_remove_client_links(s: CoreView, id: u32)
    requires
        s.wf(),
    ensures
        s.remove_client(id).links_ok(),
{
    let r = s.remove_client(id);
    // a user other than `id` keeps its record and its client
    assert forall|u: u32| u != id && s.has_user(u) implies r.has_user(u) by {
        let j = s.user_pos(u);
        if s.has_user(id) {
            let i = s.user_pos(id);
            lemma_removed(s.users, i);
            assert(r.users[after_removal(i, j)] == s.users[before_removal(i, after_removal(i, j))]);
        } else {
            assert(r.users[j].id == u);
        }
    }
    assert forall|u: u32| u != id && s.has_user_client(u) implies r.has_user_client(u) by {
        let c = choose|c: int|
            0 <= c < s.clients.len() && #[trigger] s.clients[c].id == u && s.clients[c].client_type
                == ClientTypeView::User(u);
        if s.has_client(id) {
            let p = s.client_pos(id);
            lemma_removed(s.clients, p);
            let c1 = after_removal(p, c);
            assert(r.clients[c1] == s.clients[before_removal(p, c1)]);
            assert(r.clients[c1].id == u);
        } else {
            assert(r.clients[c].id == u);
        }
    }
    assert forall|c: int| 0 <= c < r.clients.len() implies match (#[trigger] r.clients[c]).client_type {
        ClientTypeView::User(u) => u == r.clients[c].id && r.has_user(u),
        _ => true,
    } by {
        let c0 = if s.has_client(id) {
            before_removal(s.client_pos(id), c)
        } else {
            c
        };
        if s.has_client(id) {
            lemma_removed(s.clients, s.client_pos(id));
        }
        assert(r.clients[c] == s.clients[c0]);
        lemma_remove_client_clients(s, id);
        match s.clients[c0].client_type {
            ClientTypeView::User(u) => {
                assert(s.has_user(u));
                if u == id {
                    assert(r.clients[c].id == id);
                    assert(r.has_client(id));
                }
            },
            _ => {},
        }
    }
    assert forall|j: int| 0 <= j < r.users.len() implies r.has_user_client((#[trigger] r.users[j]).id) by {
        lemma_remove_client_users(s, id);
        let u = r.users[j].id;
        assert(r.has_user(u));
        let j0 = if s.has_user(id) {
            before_removal(s.user_pos(id), j)
        } else {
            j
        };
        if s.has_user(id) {
            lemma_removed(s.users, s.user_pos(id));
        }
        assert(r.users[j] == s.users[j0]);
        assert(s.has_user_client(s.users[j0].id));
    }
}

proof fn lemma_remove_client_channels(s: CoreView, id: u32)
    requires
        s.wf(),
    ensures
        s.remove_client(id).channels_ok(),
{
    let r = s.remove_client(id);
    if s.has_user(id) {
        let i = s.user_pos(id);
        let key = s.nicks[i].nick;
        lemma_removed(s.nicks, i);
        lemma_nick_pos(s, i);
        assert forall|a: int, b: int| 0 <= a < b < r.channels.len() implies #[trigger] r.channels[a].name
            != #[trigger] r.channels[b].name by {
            lemma_without_member(s.channels[a], key);
            lemma_without_member(s.channels[b], key);
            assert(s.channels[a].name != s.channels[b].name);
            assert(s.channels[a].members_distinct());
            assert(s.channels[b].members_distinct());
        }
        assert forall|c: int| 0 <= c < r.channels.len() implies (#[trigger] r.channels[c]).members_distinct() by {
            assert(s.channels[c].members_distinct());
            lemma_without_member(s.channels[c], key);
        }
        assert forall|c: int, m: int|
            0 <= c < r.channels.len() && 0 <= m < r.channels[c].users.len() implies r.nick_taken(
            #[trigger] r.channels[c].users[m].nick,
        ) by {
            assert(s.channels[c].members_distinct());
            lemma_without_member(s.channels[c], key);
            let k0 = r.channels[c].users[m].nick;
            assert(s.channels[c].has_member(k0));
            let m0 = s.channels[c].member_pos(k0);
            assert(s.nick_taken(s.channels[c].users[m0].nick));
            let q = s.nick_pos(k0);
            if k0 == key {
                assert(r.channels[c].has_member(key));
            }
            assert(q != i);
            assert(r.nicks[after_removal(i, q)] == s.nicks[before_removal(i, after_removal(i, q))]);
        }
    } else {
        assert(r.channels == s.channels && r.nicks == s.nicks);
        assert forall|c: int, m: int|
            0 <= c < r.channels.len() && 0 <= m < r.channels[c].users.len() implies r.nick_taken(
            #[trigger] r.channels[c].users[m].nick,
        ) by {
            assert(s.nick_taken(s.channels[c].users[m].nick));
            lemma_nick_taken_same(s, r, s.channels[c].users[m].nick);
        }
    }
}

/// Teardown leaves nothing behind: the registry without a client is
/// consistent and no table refers to the client's id any more.
pub proof fn lemma_remove_client_clean(s: CoreView, id: u32)
    requires
        s.wf(),
    ensures
        s.remove_client(id).wf(),
        !s.remove_client(id).refers_to(id),
{
    let r = s.remove_client(id);
    lemma_remove_client_clients(s, id);
    lemma_remove_client_users(s, id);
    lemma_remove_client_links(s, id);
    lemma_remove_client_channels(s, id);
    assert forall|c: int, m: int|
        0 <= c < r.channels.len() && 0 <= m < r.channels[c].users.len() implies r.nick_owner(
        #[trigger] r.channels[c].users[m].nick,
    ) != id by {
        let k0 = r.channels[c].users[m].nick;
        assert(r.nick_taken(k0));
        let q = r.nick_pos(k0);
        assert(r.nicks[q].user_id != id);
    }
    assert forall|k: int| 0 <= k < r.servers.len() implies (#[trigger] r.servers[k]).client_id != id by {
        s.servers.lemma_filter_pred(not_carried_by(id), k);
    }
}

/// Two registered users never share a canonical nick.
pub proof fn lemma_distinct_users_distinct_nicks(s: CoreView, i: int, j: int)
    requires
        s.wf(),
        0 <= i < s.users.len(),
        0 <= j < s.users.len(),
        i != j,
    ensures
        canonical(s.users[i].nick) != canonical(s.users[j].nick),
        s.users[i].id != s.users[j].id,
{
    assert(s.nicks[i].nick == canonical(s.users[i].nick));
    assert(s.nicks[j].nick == canonical(s.users[j].nick));
    if i < j {
        assert(s.nicks[i].nick != s.nicks[j].nick);
        assert(s.users[i].id != s.users[j].id);
    } else {
        assert(s.nicks[j].nick != s.nicks[i].nick);
        assert(s.users[j].id != s.users[i].id);
    }
}

/// Behind each member of each channel stands a registered user with that
/// nick, carried by a connected client.
pub proof fn lemma_member_is_live_user(s: CoreView, c: int, m: int)
    requires
        s.wf(),
        0 <= c < s.channels.len(),
        0 <= m < s.channels[c].users.len(),
    ensures
        s.nick_taken(s.channels[c].users[m].nick),
        s.has_user(s.nick_owner(s.channels[c].users[m].nick)),
        canonical(s.user(s.nick_owner(s.channels[c].users[m].nick)).nick) == s.channels[c].users[m].nick,
        s.has_user_client(s.nick_owner(s.channels[c].users[m].nick)),
{
    let key = s.channels[c].users[m].nick;
    assert(s.nick_taken(key));
    let q = s.nick_pos(key);
    lemma_nick_pos(s, q);
    lemma_user_pos(s, q);
    assert(s.has_user_client(s.users[q].id));
}

/// Queued lines, with one client left out, keep the registry consistent.
pub proof fn lemma_broadcast_except_wf(s: CoreView, targets: Seq<u32>, skip: u32, line: Seq<u8>)
    requires
        s.wf(),
    ensures
        s.broadcast_except(targets, skip, line).wf(),
        s.broadcast_except(targets, skip, line).same_identities(s),
{
    let t = s.broadcast_except(targets, skip, line);
    assert forall|i: int| 0 <= i < t.clients.len() implies (#[trigger] t.clients[i]).id == s.clients[i].id
        && t.clients[i].client_type == s.clients[i].client_type && t.clients[i].wf() by {
        assert(s.clients[i].wf());
    }
    lemma_same_identities_wf(s, t);
}

/// Leaving every channel keeps the registry consistent.
pub proof fn lemma_leave_all_wf(s: CoreView, uid: u32)
    requires
        s.wf(),
        s.has_user(uid),
    ensures
        s.leave_all(uid).wf(),
{
    let r = s.leave_all(uid);
    let i = s.user_pos(uid);
    let key = s.nicks[i].nick;
    assert(r.channels_ok()) by {
        assert forall|a: int, b: int| 0 <= a < b < r.channels.len() implies #[trigger] r.channels[a].name
            != #[trigger] r.channels[b].name by {
            assert(s.channels[a].members_distinct());
            assert(s.channels[b].members_distinct());
            lemma_without_member(s.channels[a], key);
            lemma_without_member(s.channels[b], key);
            assert(s.channels[a].name != s.channels[b].name);
        }
        assert forall|c: int| 0 <= c < r.channels.len() implies (#[trigger] r.channels[c]).members_distinct() by {
            assert(s.channels[c].members_distinct());
            lemma_without_member(s.channels[c], key);
        }
        assert forall|c: int, m: int|
            0 <= c < r.channels.len() && 0 <= m < r.channels[c].users.len() implies r.nick_taken(
            #[trigger] r.channels[c].users[m].nick,
        ) by {
            assert(s.channels[c].members_distinct());
            lemma_without_member(s.channels[c], key);
            let k0 = r.channels[c].users[m].nick;
            assert(s.channels[c].has_member(k0));
            let m0 = s.channels[c].member_pos(k0);
            assert(s.nick_taken(s.channels[c].users[m0].nick));
            lemma_nick_taken_same(s, r, k0);
        }
    }
    lemma_tables_wf(s, r);
}

/// Other input within the capacity keeps the registry consistent.
pub proof fn lemma_set_input_wf(s: CoreView, id: u32, input: Seq<u8>)
    requires
        s.wf(),
        input.len() <= MAX_MSG_SIZE,
    ensures
        s.set_input(id, input).wf(),
        s.set_input(id, input).same_identities(s),
{
    let t = s.set_input(id, input);
    assert forall|i: int| 0 <= i < t.clients.len() implies (#[trigger] t.clients[i]).id == s.clients[i].id
        && t.clients[i].client_type == s.clients[i].client_type && t.clients[i].wf() by {
        assert(s.clients[i].wf());
    }
    lemma_same_identities_wf(s, t);
}

/// Other output within the capacity keeps the registry consistent.
pub proof fn lemma_set_output_wf(s: CoreView, id: u32, output: Seq<u8>)
    requires
        s.wf(),
        output.len() <= MAX_BUFFER_SIZE,
    ensures
        s.set_output(id, output).wf(),
        s.set_output(id, output).same_identities(s),
{
    let t = s.set_output(id, output);
    assert forall|i: int| 0 <= i < t.clients.len() implies (#[trigger] t.clients[i]).id == s.clients[i].id
        && t.clients[i].client_type == s.clients[i].client_type && t.clients[i].wf() by {
        assert(s.clients[i].wf());
    }
    lemma_same_identities_wf(s, t);
}

/// Knowing a task's handle keeps the registry consistent.
pub proof fn lemma_set_handler_wf(s: CoreView, id: u32)
    requires
        s.wf(),
    ensures
        s.set_handler(id).wf(),
        s.set_handler(id).same_identities(s),
{
    let t = s.set_handler(id);
    assert forall|i: int| 0 <= i < t.clients.len() implies (#[trigger] t.clients[i]).id == s.clients[i].id
        && t.clients[i].client_type == s.clients[i].client_type && t.clients[i].wf() by {
        assert(s.clients[i].wf());
    }
    lemma_same_identities_wf(s, t);
}

/// Fan-out to a channel reaches its members and nobody else: the id of a
/// user is among the ids of a channel's members exactly if the user is a
/// member of the channel.
pub proof fn lemma_member_ids_are_members(s: CoreView, c: int, uid: u32)
    requires
        s.wf(),
        0 <= c < s.channels.len(),
        s.has_user(uid),
    ensures
        s.member_ids(s.channels[c]).contains(uid) <==> s.channels[c].has_member(s.user_key(uid)),
{
    let ch = s.channels[c];
    let ids = s.member_ids(ch);
    let i = s.user_pos(uid);
    lemma_user_pos(s, i);
    lemma_nick_pos(s, i);
    if ch.has_member(s.user_key(uid)) {
        let m = ch.member_pos(s.user_key(uid));
        assert(ids[m] == uid);
    }
    if ids.contains(uid) {
        let m = choose|m: int| 0 <= m < ids.len() && ids[m] == uid;
        let key = ch.users[m].nick;
        assert(s.nick_taken(s.channels[c].users[m].nick));
        let q = s.nick_pos(key);
        lemma_nick_pos(s, q);
        lemma_user_pos(s, q);
        assert(q == i);
        assert(ch.users[m].nick == s.user_key(uid));
    }
}

/// What fan-out does to each client: the line is queued for the targets,
/// and the others stay as they are.
pub proof fn lemma_broadcast_pointwise(s: CoreView, targets: Seq<u32>, line: Seq<u8>, i: int)
    requires
        0 <= i < s.clients.len(),
    ensures
        s.broadcast(targets, line).clients.len() == s.clients.len(),
        s.broadcast(targets, line).clients[i] == if targets.contains(s.clients[i].id) {
            s.clients[i].queue_line(line)
        } else {
            s.clients[i]
        },
{
}

} // verus!
