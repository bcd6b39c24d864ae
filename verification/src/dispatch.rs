//! The command dispatcher: from a parsed message and the state of the
//! registry to the next state, with the lines queued for the clients.

use vstd::prelude::*;
use vstd::string::*;
use crate::buffer::{after_first_line, first_line, has_delim_spec, lemma_first_delim_exists, MAX_MSG_SIZE};
use crate::client::{text_command, ClientCommand, ClientCommandView, ClientType, ClientTypeView};
use crate::command::{check_channel_name, check_nick, command_of, is_channel_name, valid_nick};
use crate::error::Error;
use crate::irc::{Command, CommandView, Host, HostView, ProtoUser, ProtoUserView};
use crate::laws::{lemma_client_pos, lemma_join_wf, lemma_set_input_wf, lemma_user_pos};
use crate::lines::{closed_text, join_line, join_text, part_line, part_text, privmsg_line, privmsg_text, quit_line, quit_text, welcome_line, welcome_text};
use crate::model::CoreView;
use crate::parser::{ParsedMsg, ParsedMsgView};
use crate::registry::Core;
use crate::text::{bytes_of, canonical, canonical_name, lossy_text, opt_view, strs_view};

verus! {

// ----- the state changes that commands cause -----

/// The state after the client `id` was sent the numeric reply `error`.
pub open spec fn refused(s: CoreView, id: u32, error: Error, arg: Seq<char>) -> CoreView {
    s.send_to(id, bytes_of(error.reply_text(s.reply_name(id), arg)))
}

/// The state after the client `id` became a user and was greeted.
pub open spec fn enrolled(
    s: CoreView,
    id: u32,
    nick: Seq<char>,
    username: Seq<char>,
    real_name: Seq<char>,
    host: HostView,
) -> CoreView {
    s.register(id, nick, username, real_name, host).send_to(
        id,
        bytes_of(welcome_text(CoreView::fresh_user(id, nick, username, real_name, host))),
    )
}

/// What is known of a client that has sent `USER` and has no nick.
pub open spec fn proto_named(username: Seq<char>, real_name: Seq<char>) -> ClientTypeView {
    ClientTypeView::ProtoUser(
        ProtoUserView { nick: None, username: Some(username), real_name: Some(real_name) },
    )
}

/// The state after `NICK nick` from the client `id`.
pub open spec fn nick_step(s: CoreView, id: u32, nick: Seq<char>, host: HostView) -> CoreView {
    let key = canonical(nick);
    if !s.has_client(id) {
        s
    } else if !valid_nick(nick) {
        refused(s, id, Error::ErroneusNickname, nick)
    } else {
        match s.client(id).client_type {
            ClientTypeView::Server(_) => s,
            ClientTypeView::User(uid) => if s.nick_taken(key) && s.nick_owner(key) != uid {
                refused(s, id, Error::NicknameInUse, nick)
            } else {
                s.rename(uid, nick)
            },
            ClientTypeView::Unknown => if s.nick_taken(key) {
                refused(s, id, Error::NicknameInUse, nick)
            } else {
                s.set_type(
                    id,
                    ClientTypeView::ProtoUser(
                        ProtoUserView { nick: Some(nick), username: None, real_name: None },
                    ),
                )
            },
            ClientTypeView::ProtoUser(p) => if s.nick_taken(key) {
                refused(s, id, Error::NicknameInUse, nick)
            } else if p.username is Some && p.real_name is Some {
                enrolled(s, id, nick, p.username->0, p.real_name->0, host)
            } else {
                s.set_type(id, ClientTypeView::ProtoUser(ProtoUserView { nick: Some(nick), ..p }))
            },
        }
    }
}

/// The state after `USER username .. real_name` from the client `id`.
pub open spec fn user_step(
    s: CoreView,
    id: u32,
    username: Seq<char>,
    real_name: Seq<char>,
    host: HostView,
) -> CoreView {
    if !s.has_client(id) {
        s
    } else {
        match s.client(id).client_type {
            ClientTypeView::Server(_) => s,
            ClientTypeView::User(_) => refused(s, id, Error::AlreadyRegistred, Seq::empty()),
            ClientTypeView::Unknown => s.set_type(id, proto_named(username, real_name)),
            ClientTypeView::ProtoUser(p) => match p.nick {
                Some(n) => if s.nick_taken(canonical(n)) {
                    refused(s.set_type(id, proto_named(username, real_name)), id, Error::NicknameInUse, n)
                } else {
                    enrolled(s, id, n, username, real_name, host)
                },
                None => s.set_type(id, proto_named(username, real_name)),
            },
        }
    }
}

/// The numeric reply `error` for the client `id`.
pub fn refuse(core: &mut Core, id: u32, error: Error, arg: &str)
    requires
        old(core).wf(),
    ensures
        final(core).wf(),
        final(core)@ == refused(old(core)@, id, error, arg@),
{
    let name = core.reply_name(id);
    let line = error.reply(name.as_str(), arg);
    core.send_to(id, line.as_str());
}

fn enroll(core: &mut Core, id: u32, nick: String, username: String, real_name: String, host: &Host)
    requires
        old(core).wf(),
        old(core)@.has_client(id),
        !(old(core)@.client(id).client_type is User),
        !old(core)@.nick_taken(canonical(nick@)),
    ensures
        final(core).wf(),
        final(core)@ == enrolled(old(core)@, id, nick@, username@, real_name@, host@),
{
    let ghost n = core@.users.len() as int;
    let ghost fresh = CoreView::fresh_user(id, nick@, username@, real_name@, host@);
    let r = core.register(id, nick, username, real_name, host.duplicate());
    proof {
        assert(core@.users[n] == fresh);
        lemma_user_pos(core@, n);
    }
    match core.find_user(id) {
        Some(j) => {
            let line = welcome_line(&core.users[j]);
            core.send_to(id, line.as_str());
        },
        None => {},
    }
}

/// `NICK nick` from the client `id`, whose peer is `host`.
pub fn cmd_nick(core: &mut Core, id: u32, host: &Host, nick: String)
    requires
        old(core).wf(),
    ensures
        final(core).wf(),
        final(core)@ == nick_step(old(core)@, id, nick@, host@),
{
    let state = match core.client_state(id) {
        Some(t) => t,
        None => {
            return ;
        },
    };
    if !check_nick(nick.as_str()) {
        refuse(core, id, Error::ErroneusNickname, nick.as_str());
        return ;
    }
    let key = canonical_name(nick.as_str());
    let taken = core.find_nick(key.as_str());
    match state {
        ClientType::Server(_) => {},
        ClientType::User(uid) => {
            proof {
                let i = core@.client_pos(id);
                assert(core@.clients[i].client_type == ClientTypeView::User(uid));
                assert(core@.has_user(uid));
            }
            match core.rename(uid, nick.clone()) {
                Ok(()) => {},
                Err(_) => {
                    refuse(core, id, Error::NicknameInUse, nick.as_str());
                },
            }
        },
        ClientType::Unknown => {
            if taken.is_some() {
                refuse(core, id, Error::NicknameInUse, nick.as_str());
            } else {
                core.set_proto(id, ProtoUser { nick: Some(nick), username: None, real_name: None });
            }
        },
        ClientType::ProtoUser(p) => {
            if taken.is_some() {
                refuse(core, id, Error::NicknameInUse, nick.as_str());
            } else {
                match (p.username, p.real_name) {
                    (Some(u), Some(r)) => {
                        enroll(core, id, nick, u, r, host);
                    },
                    (u, r) => {
                        core.set_proto(id, ProtoUser { nick: Some(nick), username: u, real_name: r });
                    },
                }
            }
        },
    }
}

/// `USER username .. real_name` from the client `id`, whose peer is `host`.
pub fn cmd_user(core: &mut Core, id: u32, host: &Host, username: String, real_name: String)
    requires
        old(core).wf(),
    ensures
        final(core).wf(),
        final(core)@ == user_step(old(core)@, id, username@, real_name@, host@),
{
    let state = match core.client_state(id) {
        Some(t) => t,
        None => {
            return ;
        },
    };
    match state {
        ClientType::Server(_) => {},
        ClientType::User(_) => {
            proof {
                reveal_strlit("");
                assert(""@ =~= Seq::<char>::empty());
            }
            refuse(core, id, Error::AlreadyRegistred, "");
        },
        ClientType::Unknown => {
            core.set_proto(id, ProtoUser { nick: None, username: Some(username), real_name: Some(real_name) });
        },
        ClientType::ProtoUser(p) => {
            match p.nick {
                Some(n) => {
                    let key = canonical_name(n.as_str());
                    if core.find_nick(key.as_str()).is_some() {
                        core.set_proto(
                            id,
                            ProtoUser { nick: None, username: Some(username), real_name: Some(real_name) },
                        );
                        refuse(core, id, Error::NicknameInUse, n.as_str());
                    } else {
                        enroll(core, id, n, username, real_name, host);
                    }
                },
                None => {
                    core.set_proto(
                        id,
                        ProtoUser { nick: None, username: Some(username), real_name: Some(real_name) },
                    );
                },
            }
        },
    }
}

/// The state after the user `uid` asked to join the channel `name`: it
/// becomes a member, and every member is told, the user too. Nothing
/// changes for a member.
pub open spec fn join_one(s: CoreView, uid: u32, name: Seq<char>) -> CoreView {
    let key = canonical(name);
    if !s.has_user(uid) || s.is_member(uid, key) {
        s
    } else {
        let joined = s.join(uid, key);
        joined.broadcast(joined.member_ids(joined.channel(key)), bytes_of(join_text(s.user(uid), name)))
    }
}

/// The state after the user `uid` asked to join the channels `names`, one
/// after the other.
pub open spec fn join_step(s: CoreView, uid: u32, names: Seq<Seq<char>>) -> CoreView
    decreases names.len(),
{
    if names.len() == 0 {
        s
    } else {
        join_one(join_step(s, uid, names.drop_last()), uid, names.last())
    }
}

/// The state after the user `uid` asked to leave the channel `name`:
/// every member is told, the user too, and the membership ends. Nothing
/// changes for one who is no member.
pub open spec fn part_one(s: CoreView, uid: u32, name: Seq<char>, msg: Option<Seq<char>>) -> CoreView {
    let key = canonical(name);
    if !s.has_user(uid) || !s.is_member(uid, key) {
        s
    } else {
        s.broadcast(s.member_ids(s.channel(key)), bytes_of(part_text(s.user(uid), name, msg))).part(uid, key)
    }
}

/// The state after the user `uid` asked to leave the channels `names`,
/// one after the other.
pub open spec fn part_step(s: CoreView, uid: u32, names: Seq<Seq<char>>, msg: Option<Seq<char>>) -> CoreView
    decreases names.len(),
{
    if names.len() == 0 {
        s
    } else {
        part_one(part_step(s, uid, names.drop_last(), msg), uid, names.last(), msg)
    }
}

/// The state after the user `uid` sent `text` to `target`: to the other
/// members of a channel, or to the user of that nick; where there is no
/// such target, the sender is told.
pub open spec fn message_one(s: CoreView, uid: u32, target: Seq<char>, text: Seq<char>) -> CoreView {
    let key = canonical(target);
    if !s.has_user(uid) {
        s
    } else {
        let line = bytes_of(privmsg_text(s.user(uid), target, text));
        if is_channel_name(target) {
            if s.has_channel(key) {
                s.broadcast_except(s.member_ids(s.channel(key)), uid, line)
            } else {
                refused(s, uid, Error::NoSuchNick, target)
            }
        } else {
            if s.nick_taken(key) {
                s.send_to(s.nick_owner(key), line)
            } else {
                refused(s, uid, Error::NoSuchNick, target)
            }
        }
    }
}

/// The state after the user `uid` sent `text` to the `targets`, one after
/// the other.
pub open spec fn message_step(s: CoreView, uid: u32, targets: Seq<Seq<char>>, text: Seq<char>) -> CoreView
    decreases targets.len(),
{
    if targets.len() == 0 {
        s
    } else {
        message_one(message_step(s, uid, targets.drop_last(), text), uid, targets.last(), text)
    }
}

/// The farewell of a `QUIT` without a message.
pub open spec fn default_farewell() -> Seq<char> {
    "Client Quit"@
}

/// The state after the user `uid` went away with the words `words`: the
/// members of its channels are told, and it is a member of none.
pub open spec fn farewell(s: CoreView, uid: u32, words: Seq<char>) -> CoreView {
    if !s.has_user(uid) {
        s
    } else {
        s.broadcast_except(s.peer_ids(s.user_key(uid)), uid, bytes_of(quit_text(s.user(uid), words))).leave_all(
            uid,
        )
    }
}

/// The state after `QUIT` from the client `id`: a user's peers are told,
/// and the client is marked dead.
pub open spec fn quit_step(s: CoreView, id: u32, msg: Option<Seq<char>>) -> CoreView {
    let words = match msg {
        Some(m) => m,
        None => default_farewell(),
    };
    if !s.has_client(id) {
        s
    } else {
        match s.client(id).client_type {
            ClientTypeView::User(uid) => farewell(s, uid, words).kill(id),
            _ => s.kill(id),
        }
    }
}

/// The state after the connection of the client `id` went away: a user's
/// peers are told, and nothing of the client is left.
pub open spec fn disconnect_step(s: CoreView, id: u32) -> CoreView {
    if !s.has_client(id) {
        s.remove_client(id)
    } else {
        match s.client(id).client_type {
            ClientTypeView::User(uid) => farewell(s, uid, closed_text()).remove_client(id),
            _ => s.remove_client(id),
        }
    }
}

/// The user that the client `id` is, if it is one.
pub open spec fn acting_user(s: CoreView, id: u32) -> Option<u32> {
    if !s.has_client(id) {
        None
    } else {
        match s.client(id).client_type {
            ClientTypeView::User(uid) => Some(uid),
            _ => None,
        }
    }
}

/// The state after the command `cmd` from the client `id`. What only a
/// user may do earns any other client the reply that it has not
/// registered.
pub open spec fn command_step(s: CoreView, id: u32, host: HostView, cmd: CommandView) -> CoreView {
    match cmd {
        CommandView::Nick(n) => nick_step(s, id, n, host),
        CommandView::User(u, _, r) => user_step(s, id, u, r, host),
        CommandView::Quit(m) => quit_step(s, id, m),
        CommandView::Join(names) => match acting_user(s, id) {
            Some(uid) => join_step(s, uid, names),
            None => refused(s, id, Error::NotRegistered, Seq::empty()),
        },
        CommandView::Part(names, m) => match acting_user(s, id) {
            Some(uid) => part_step(s, uid, names, m),
            None => refused(s, id, Error::NotRegistered, Seq::empty()),
        },
        CommandView::Message(targets, text) => match acting_user(s, id) {
            Some(uid) => message_step(s, uid, targets, text),
            None => refused(s, id, Error::NotRegistered, Seq::empty()),
        },
    }
}

/// The state after the message `msg` from the client `id`: that of its
/// command, or the error reply that the message earns.
pub open spec fn message_effect(s: CoreView, id: u32, host: HostView, msg: ParsedMsgView) -> CoreView {
    match command_of(msg) {
        Ok(cmd) => command_step(s, id, host, cmd),
        Err(r) => refused(s, id, r.error, r.arg),
    }
}

fn join_channel(core: &mut Core, uid: u32, name: &str)
    requires
        old(core).wf(),
    ensures
        final(core).wf(),
        final(core)@ == join_one(old(core)@, uid, name@),
{
    let i = match core.find_user(uid) {
        Some(i) => i,
        None => {
            return ;
        },
    };
    let line = join_line(&core.users[i], name);
    proof {
        lemma_user_pos(core@, i as int);
    }
    let key = canonical_name(name);
    if !core.join(uid, name) {
        return ;
    }
    proof {
        lemma_join_wf(old(core)@, uid, key@);
    }
    match core.find_channel_pos(key.as_str()) {
        Some(p) => {
            let targets = core.channel_targets(p);
            core.broadcast(&targets, line.as_str());
        },
        None => {},
    }
}

/// `JOIN` of the channels `names` by the user `uid`.
pub fn cmd_join(core: &mut Core, uid: u32, names: &Vec<String>)
    requires
        old(core).wf(),
    ensures
        final(core).wf(),
        final(core)@ == join_step(old(core)@, uid, strs_view(names@)),
{
    let ghost all = strs_view(names@);
    let mut i: usize = 0;
    proof {
        assert(all.take(0) =~= Seq::<Seq<char>>::empty());
    }
    while i < names.len()
        invariant
            i <= names.len(),
            all == strs_view(names@),
            core.wf(),
            core@ == join_step(old(core)@, uid, all.take(i as int)),
        decreases names.len() - i,
    {
        proof {
            let t = all.take(i + 1);
            assert(t.drop_last() =~= all.take(i as int));
            assert(t.last() == names@[i as int]@);
        }
        join_channel(core, uid, names[i].as_str());
        i += 1;
    }
    proof {
        assert(all.take(names.len() as int) =~= all);
    }
}

fn part_channel(core: &mut Core, uid: u32, name: &str, msg: &Option<String>)
    requires
        old(core).wf(),
    ensures
        final(core).wf(),
        final(core)@ == part_one(old(core)@, uid, name@, opt_view(*msg)),
{
    let i = match core.find_user(uid) {
        Some(i) => i,
        None => {
            return ;
        },
    };
    let key = canonical_name(name);
    let p = match core.find_channel_pos(key.as_str()) {
        Some(p) => p,
        None => {
            return ;
        },
    };
    proof {
        lemma_user_pos(core@, i as int);
        assert(core@.channels[p as int].members_distinct());
    }
    if core.channels[p].find_member(core.nicks[i].nick.as_str()).is_none() {
        return ;
    }
    let line = part_line(&core.users[i], name, msg);
    let targets = core.channel_targets(p);
    core.broadcast(&targets, line.as_str());
    proof {
        let s = old(core)@;
        let t = core@;
        assert(t.users == s.users && t.nicks == s.nicks && t.channels == s.channels);
        assert(t.has_user(uid) == s.has_user(uid));
        assert(t.is_member(uid, key@) == s.is_member(uid, key@));
    }
    core.part(uid, name);
}

/// `PART` from the channels `names` by the user `uid`.
pub fn cmd_part(core: &mut Core, uid: u32, names: &Vec<String>, msg: &Option<String>)
    requires
        old(core).wf(),
    ensures
        final(core).wf(),
        final(core)@ == part_step(old(core)@, uid, strs_view(names@), opt_view(*msg)),
{
    let ghost all = strs_view(names@);
    let mut i: usize = 0;
    proof {
        assert(all.take(0) =~= Seq::<Seq<char>>::empty());
    }
    while i < names.len()
        invariant
            i <= names.len(),
            all == strs_view(names@),
            core.wf(),
            core@ == part_step(old(core)@, uid, all.take(i as int), opt_view(*msg)),
        decreases names.len() - i,
    {
        proof {
            let t = all.take(i + 1);
            assert(t.drop_last() =~= all.take(i as int));
            assert(t.last() == names@[i as int]@);
        }
        part_channel(core, uid, names[i].as_str(), msg);
        i += 1;
    }
    proof {
        assert(all.take(names.len() as int) =~= all);
    }
}

fn message_target(core: &mut Core, uid: u32, target: &str, text: &str)
    requires
        old(core).wf(),
    ensures
        final(core).wf(),
        final(core)@ == message_one(old(core)@, uid, target@, text@),
{
    let i = match core.find_user(uid) {
        Some(i) => i,
        None => {
            return ;
        },
    };
    proof {
        lemma_user_pos(core@, i as int);
    }
    let line = privmsg_line(&core.users[i], target, text);
    let key = canonical_name(target);
    if check_channel_name(target) {
        match core.find_channel_pos(key.as_str()) {
            Some(p) => {
                let targets = core.channel_targets(p);
                core.broadcast_except(&targets, uid, line.as_str());
            },
            None => {
                refuse(core, uid, Error::NoSuchNick, target);
            },
        }
    } else {
        match core.find_nick(key.as_str()) {
            Some(q) => {
                let to: u32 = core.nicks[q].user_id;
                core.send_to(to, line.as_str());
            },
            None => {
                refuse(core, uid, Error::NoSuchNick, target);
            },
        }
    }
}

/// `PRIVMSG` of `text` to the `targets` by the user `uid`.
pub fn cmd_privmsg(core: &mut Core, uid: u32, targets: &Vec<String>, text: &str)
    requires
        old(core).wf(),
    ensures
        final(core).wf(),
        final(core)@ == message_step(old(core)@, uid, strs_view(targets@), text@),
{
    let ghost all = strs_view(targets@);
    let mut i: usize = 0;
    proof {
        assert(all.take(0) =~= Seq::<Seq<char>>::empty());
    }
    while i < targets.len()
        invariant
            i <= targets.len(),
            all == strs_view(targets@),
            core.wf(),
            core@ == message_step(old(core)@, uid, all.take(i as int), text@),
        decreases targets.len() - i,
    {
        proof {
            let t = all.take(i + 1);
            assert(t.drop_last() =~= all.take(i as int));
            assert(t.last() == targets@[i as int]@);
        }
        message_target(core, uid, targets[i].as_str(), text);
        i += 1;
    }
    proof {
        assert(all.take(targets.len() as int) =~= all);
    }
}

/// Tells the peers of the user `uid` that it goes away with the words
/// `words`, and takes it out of its channels.
pub fn say_farewell(core: &mut Core, uid: u32, words: &str)
    requires
        old(core).wf(),
    ensures
        final(core).wf(),
        final(core)@ == farewell(old(core)@, uid, words@),
{
    let i = match core.find_user(uid) {
        Some(i) => i,
        None => {
            return ;
        },
    };
    proof {
        lemma_user_pos(core@, i as int);
    }
    let line = quit_line(&core.users[i], words);
    let peers = core.peers_of(core.nicks[i].nick.as_str());
    core.broadcast_except(&peers, uid, line.as_str());
    proof {
        let s = old(core)@;
        let t = core@;
        assert(t.users == s.users && t.nicks == s.nicks && t.channels == s.channels);
        assert(t.has_user(uid) == s.has_user(uid));
        assert(t.leave_all(uid).users == s.leave_all(uid).users);
    }
    core.leave_all(uid);
}

/// `QUIT` from the client `id`.
pub fn cmd_quit(core: &mut Core, id: u32, msg: &Option<String>)
    requires
        old(core).wf(),
    ensures
        final(core).wf(),
        final(core)@ == quit_step(old(core)@, id, opt_view(*msg)),
{
    let state = match core.client_state(id) {
        Some(t) => t,
        None => {
            return ;
        },
    };
    match state {
        ClientType::User(uid) => {
            match msg {
                Some(m) => say_farewell(core, uid, m.as_str()),
                None => say_farewell(core, uid, "Client Quit"),
            }
        },
        _ => {},
    }
    core.kill(id);
}

/// Teardown of the client `id` after its connection went away: a user's
/// peers are told, and the client leaves every table.
pub fn disconnect(core: &mut Core, id: u32)
    requires
        old(core).wf(),
    ensures
        final(core).wf(),
        final(core)@ == disconnect_step(old(core)@, id),
        !final(core)@.refers_to(id),
{
    match core.client_state(id) {
        Some(ClientType::User(uid)) => {
            say_farewell(core, uid, "connection closed");
        },
        _ => {},
    }
    core.remove_client(id);
}

fn user_of(core: &Core, id: u32) -> (r: Option<u32>)
    requires
        core.wf(),
    ensures
        r == acting_user(core@, id),
{
    match core.client_state(id) {
        Some(ClientType::User(uid)) => Some(uid),
        _ => None,
    }
}

fn refuse_unregistered(core: &mut Core, id: u32)
    requires
        old(core).wf(),
    ensures
        final(core).wf(),
        final(core)@ == refused(old(core)@, id, Error::NotRegistered, Seq::empty()),
{
    proof {
        reveal_strlit("");
        assert(""@ =~= Seq::<char>::empty());
    }
    refuse(core, id, Error::NotRegistered, "");
}

/// Carries out the command `cmd` from the client `id`, whose peer is
/// `host`.
pub fn run_command(core: &mut Core, id: u32, host: &Host, cmd: Command)
    requires
        old(core).wf(),
    ensures
        final(core).wf(),
        final(core)@ == command_step(old(core)@, id, host@, cmd@),
{
    match cmd {
        Command::Nick(n) => cmd_nick(core, id, host, n),
        Command::User(u, _, r) => cmd_user(core, id, host, u, r),
        Command::Quit(m) => cmd_quit(core, id, &m),
        Command::Join(names) => match user_of(core, id) {
            Some(uid) => cmd_join(core, uid, &names),
            None => refuse_unregistered(core, id),
        },
        Command::Part(names, m) => match user_of(core, id) {
            Some(uid) => cmd_part(core, uid, &names, &m),
            None => refuse_unregistered(core, id),
        },
        Command::Message(targets, text) => match user_of(core, id) {
            Some(uid) => cmd_privmsg(core, uid, &targets, text.as_str()),
            None => refuse_unregistered(core, id),
        },
    }
}

/// Handles the message `msg` from the client `id`, whose peer is `host`:
/// its command is carried out, or the client is sent the error reply that
/// the message earns.
pub fn handle_command(core: &mut Core, id: u32, host: &Host, msg: &ParsedMsg)
    requires
        old(core).wf(),
    ensures
        final(core).wf(),
        final(core)@ == message_effect(old(core)@, id, host@, msg@),
{
    match Command::from_msg(msg) {
        Ok(cmd) => run_command(core, id, host, cmd),
        Err(r) => refuse(core, id, r.error, r.arg.as_str()),
    }
}

// ----- from the input buffer to the dispatcher -----

/// Whether the client `id` has a whole line in its input buffer.
pub open spec fn line_ready(s: CoreView, id: u32) -> bool {
    s.has_client(id) && has_delim_spec(s.client(id).input)
}

/// The state after the client `id` sent the line `text`: nothing changes
/// for an empty line; a line that is no message earns the reply that the
/// command is unknown.
pub open spec fn text_effect(s: CoreView, id: u32, host: HostView, text: Seq<char>) -> CoreView {
    match text_command(text) {
        Ok(ClientCommandView::Empty) => s,
        Ok(ClientCommandView::Message(m)) => message_effect(s, id, host, m),
        Err(_) => refused(s, id, Error::UnknownCommand, "*"@),
    }
}

/// The state after the first line of the input of the client `id` was
/// taken out of the buffer and handled.
pub open spec fn next_line_effect(s: CoreView, id: u32, host: HostView) -> CoreView {
    let input = s.client(id).input;
    text_effect(s.set_input(id, after_first_line(input)), id, host, lossy_text(first_line(input)))
}

/// The state after the lines in the input of the client `id` were handled
/// in order, `budget` of them at most.
pub open spec fn drained(s: CoreView, id: u32, host: HostView, budget: nat) -> CoreView
    decreases budget,
{
    if budget == 0 || !line_ready(s, id) {
        s
    } else {
        drained(next_line_effect(s, id, host), id, host, (budget - 1) as nat)
    }
}

/// Without a whole line in the input, handling the input changes nothing.
pub proof fn lemma_nothing_to_drain(s: CoreView, id: u32, host: HostView, budget: nat)
    requires
        !line_ready(s, id),
    ensures
        drained(s, id, host, budget) == s,
{
}

/// An empty input buffer holds no line: handling it changes nothing.
pub proof fn lemma_empty_input_is_left_alone(s: CoreView, id: u32, host: HostView, budget: nat)
    requires
        s.has_client(id) ==> s.client(id).input.len() == 0,
    ensures
        !line_ready(s, id),
        drained(s, id, host, budget) == s,
{
}

/// Handles the first line in the input of the client `id`, if there is a
/// whole line, and says whether there was one.
pub fn dispatch_line(core: &mut Core, id: u32, host: &Host) -> (handled: bool)
    requires
        old(core).wf(),
    ensures
        final(core).wf(),
        handled == line_ready(old(core)@, id),
        handled ==> final(core)@ == next_line_effect(old(core)@, id, host@),
        !handled ==> final(core)@ == old(core)@,
{
    let i = match core.find_client(id) {
        Some(i) => i,
        None => {
            return false;
        },
    };
    proof {
        lemma_client_pos(core@, i as int);
    }
    if !core.clients.map[i].input.has_delim() {
        return false;
    }
    let ghost input = core@.client(id).input;
    proof {
        lemma_first_delim_exists(input);
        lemma_set_input_wf(core@, id, after_first_line(input));
    }
    let r = core.clients.map[i].end_of_line();
    proof {
        let m = old(core)@.set_input(id, after_first_line(input));
        assert forall|k: int| 0 <= k < m.clients.len() implies core@.clients[k] == m.clients[k] by {
            if k != i {
                assert(core.clients.map@[k] == old(core).clients.map@[k]);
                lemma_client_pos(old(core)@, k);
            }
        }
        assert(core@.clients =~= m.clients);
        assert forall|k: int| 0 <= k < core.clients.map@.len() implies (#[trigger] core.clients.map@[k]).wf() by {
            assert(old(core).clients.map@[k].wf());
        }
    }
    match r {
        Ok(ClientCommand::Empty) => {},
        Ok(ClientCommand::Message(m)) => {
            handle_command(core, id, host, &m);
        },
        Err(_) => {
            refuse(core, id, Error::UnknownCommand, "*");
        },
    }
    true
}

/// Handles the lines in the input of the client `id` in the order in
/// which they came, until no whole line is left.
pub fn process_input(core: &mut Core, id: u32, host: &Host)
    requires
        old(core).wf(),
    ensures
        final(core).wf(),
        final(core)@ == drained(old(core)@, id, host@, MAX_MSG_SIZE as nat),
        !line_ready(final(core)@, id),
{
    proof {
        if core@.has_client(id) {
            crate::consistency::lemma_user_client(core@, id);
        }
        crate::consistency::lemma_drained_leaves_no_line(core@, id, host@, MAX_MSG_SIZE as nat);
    }
    let mut budget: usize = MAX_MSG_SIZE;
    while budget > 0
        invariant_except_break
            drained(old(core)@, id, host@, MAX_MSG_SIZE as nat) == drained(core@, id, host@, budget as nat),
        invariant
            core.wf(),
        ensures
            core@ == drained(old(core)@, id, host@, MAX_MSG_SIZE as nat),
        decreases budget,
    {
        if !dispatch_line(core, id, host) {
            break ;
        }
        budget -= 1;
    }
}

} // verus!
