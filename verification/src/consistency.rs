//! Consistency is an invariant: every state change of the protocol, and
//! every step of a connection's task, leads from a consistent registry to
//! a consistent registry.

use vstd::prelude::*;
use crate::buffer::{after_first_line, drop_front, first_line, lemma_first_delim_exists, MAX_MSG_SIZE};
use crate::client::{text_command, ClientCommandView, ClientTypeView};
use crate::connection::{ClientFutureView, IoEventView, Stage};
use crate::dispatch::{acting_user, command_step, disconnect_step, drained, enrolled, farewell, join_one, join_step, line_ready, message_effect, message_one, message_step, next_line_effect, nick_step, part_one, part_step, proto_named, quit_step, refused, text_effect, user_step};
use crate::command::{command_of};
use crate::error::Error;
use crate::irc::{CommandView, HostView};
use crate::model::CoreView;
use crate::laws::{lemma_set_handler_wf, lemma_broadcast_except_wf, lemma_broadcast_wf, lemma_client_pos, lemma_join_wf, lemma_kill_wf, lemma_leave_all_wf, lemma_part_wf, lemma_register_wf, lemma_remove_client_clean, lemma_rename_wf, lemma_send_to_wf, lemma_set_input_wf, lemma_set_output_wf, lemma_set_type_wf};
use crate::parser::ParsedMsgView;
use crate::text::{canonical, lossy_text};

verus! {

/// In a consistent registry a client of type `User(uid)` has the id `uid`
/// and a user record.
pub proof fn lemma_user_client(s: CoreView, id: u32)
    requires
        s.wf(),
        s.has_client(id),
    ensures
        s.client(id).id == id,
        s.client(id).wf(),
        s.client(id).client_type matches ClientTypeView::User(uid) ==> uid == id && s.has_user(uid),
{
    let p = s.client_pos(id);
    lemma_client_pos(s, p);
    assert(s.clients[p].wf());
}

/// An error reply keeps the registry consistent.
pub proof fn lemma_refused_wf(s: CoreView, id: u32, error: Error, arg: Seq<char>)
    requires
        s.wf(),
    ensures
        refused(s, id, error, arg).wf(),
        refused(s, id, error, arg).same_identities(s),
{
    lemma_send_to_wf(s, id, crate::text::bytes_of(error.reply_text(s.reply_name(id), arg)));
}

/// Registration with its greeting keeps the registry consistent.
pub proof fn lemma_enrolled_wf(
    s: CoreView,
    id: u32,
    nick: Seq<char>,
    username: Seq<char>,
    real_name: Seq<char>,
    host: HostView,
)
    requires
        s.wf(),
        s.has_client(id),
        !(s.client(id).client_type is User),
        !s.nick_taken(canonical(nick)),
    ensures
        enrolled(s, id, nick, username, real_name, host).wf(),
{
    lemma_register_wf(s, id, nick, username, real_name, host);
    let r = s.register(id, nick, username, real_name, host);
    lemma_send_to_wf(
        r,
        id,
        crate::text::bytes_of(
            crate::lines::welcome_text(CoreView::fresh_user(id, nick, username, real_name, host)),
        ),
    );
}

/// `NICK` keeps the registry consistent.
pub proof fn lemma_nick_step_wf(s: CoreView, id: u32, nick: Seq<char>, host: HostView)
    requires
        s.wf(),
    ensures
        nick_step(s, id, nick, host).wf(),
{
    let key = canonical(nick);
    if s.has_client(id) {
        lemma_user_client(s, id);
        lemma_refused_wf(s, id, Error::ErroneusNickname, nick);
        lemma_refused_wf(s, id, Error::NicknameInUse, nick);
        match s.client(id).client_type {
            ClientTypeView::Server(_) => {},
            ClientTypeView::User(uid) => {
                if !(s.nick_taken(key) && s.nick_owner(key) != uid) {
                    lemma_rename_wf(s, uid, nick);
                }
            },
            ClientTypeView::Unknown => {
                lemma_set_type_wf(
                    s,
                    id,
                    ClientTypeView::ProtoUser(
                        crate::irc::ProtoUserView { nick: Some(nick), username: None, real_name: None },
                    ),
                );
            },
            ClientTypeView::ProtoUser(p) => {
                if !s.nick_taken(key) {
                    if p.username is Some && p.real_name is Some {
                        lemma_enrolled_wf(s, id, nick, p.username->0, p.real_name->0, host);
                    } else {
                        lemma_set_type_wf(
                            s,
                            id,
                            ClientTypeView::ProtoUser(crate::irc::ProtoUserView { nick: Some(nick), ..p }),
                        );
                    }
                }
            },
        }
    }
}

/// `USER` keeps the registry consistent.
pub proof fn lemma_user_step_wf(s: CoreView, id: u32, username: Seq<char>, real_name: Seq<char>, host: HostView)
    requires
        s.wf(),
    ensures
        user_step(s, id, username, real_name, host).wf(),
{
    if s.has_client(id) {
        lemma_user_client(s, id);
        lemma_refused_wf(s, id, Error::AlreadyRegistred, Seq::empty());
        match s.client(id).client_type {
            ClientTypeView::Server(_) => {},
            ClientTypeView::User(_) => {},
            ClientTypeView::Unknown => {
                lemma_set_type_wf(s, id, proto_named(username, real_name));
            },
            ClientTypeView::ProtoUser(p) => {
                lemma_set_type_wf(s, id, proto_named(username, real_name));
                match p.nick {
                    Some(n) => {
                        if s.nick_taken(canonical(n)) {
                            lemma_refused_wf(
                                s.set_type(id, proto_named(username, real_name)),
                                id,
                                Error::NicknameInUse,
                                n,
                            );
                        } else {
                            lemma_enrolled_wf(s, id, n, username, real_name, host);
                        }
                    },
                    None => {},
                }
            },
        }
    }
}

/// Joining one channel keeps the registry consistent.
pub proof fn lemma_join_one_wf(s: CoreView, uid: u32, name: Seq<char>)
    requires
        s.wf(),
    ensures
        join_one(s, uid, name).wf(),
{
    let key = canonical(name);
    if s.has_user(uid) && !s.is_member(uid, key) {
        lemma_join_wf(s, uid, key);
        let joined = s.join(uid, key);
        lemma_broadcast_wf(
            joined,
            joined.member_ids(joined.channel(key)),
            crate::text::bytes_of(crate::lines::join_text(s.user(uid), name)),
        );
    }
}

/// `JOIN` keeps the registry consistent.
pub proof fn lemma_join_step_wf(s: CoreView, uid: u32, names: Seq<Seq<char>>)
    requires
        s.wf(),
    ensures
        join_step(s, uid, names).wf(),
    decreases names.len(),
{
    if names.len() > 0 {
        lemma_join_step_wf(s, uid, names.drop_last());
        lemma_join_one_wf(join_step(s, uid, names.drop_last()), uid, names.last());
    }
}

/// Leaving one channel keeps the registry consistent.
pub proof fn lemma_part_one_wf(s: CoreView, uid: u32, name: Seq<char>, msg: Option<Seq<char>>)
    requires
        s.wf(),
    ensures
        part_one(s, uid, name, msg).wf(),
{
    let key = canonical(name);
    if s.has_user(uid) && s.is_member(uid, key) {
        let line = crate::text::bytes_of(crate::lines::part_text(s.user(uid), name, msg));
        let told = s.broadcast(s.member_ids(s.channel(key)), line);
        lemma_broadcast_wf(s, s.member_ids(s.channel(key)), line);
        assert(told.users == s.users && told.nicks == s.nicks && told.channels == s.channels);
        assert(told.has_user(uid) == s.has_user(uid));
        assert(told.is_member(uid, key) == s.is_member(uid, key));
        lemma_part_wf(told, uid, key);
    }
}

/// `PART` keeps the registry consistent.
pub proof fn lemma_part_step_wf(s: CoreView, uid: u32, names: Seq<Seq<char>>, msg: Option<Seq<char>>)
    requires
        s.wf(),
    ensures
        part_step(s, uid, names, msg).wf(),
    decreases names.len(),
{
    if names.len() > 0 {
        lemma_part_step_wf(s, uid, names.drop_last(), msg);
        lemma_part_one_wf(part_step(s, uid, names.drop_last(), msg), uid, names.last(), msg);
    }
}

/// A message to one target keeps the registry consistent.
pub proof fn lemma_message_one_wf(s: CoreView, uid: u32, target: Seq<char>, text: Seq<char>)
    requires
        s.wf(),
    ensures
        message_one(s, uid, target, text).wf(),
{
    let key = canonical(target);
    if s.has_user(uid) {
        let line = crate::text::bytes_of(crate::lines::privmsg_text(s.user(uid), target, text));
        lemma_refused_wf(s, uid, Error::NoSuchNick, target);
        if s.has_channel(key) {
            lemma_broadcast_except_wf(s, s.member_ids(s.channel(key)), uid, line);
        }
        if s.nick_taken(key) {
            lemma_send_to_wf(s, s.nick_owner(key), line);
        }
    }
}

/// `PRIVMSG` keeps the registry consistent.
pub proof fn lemma_message_step_wf(s: CoreView, uid: u32, targets: Seq<Seq<char>>, text: Seq<char>)
    requires
        s.wf(),
    ensures
        message_step(s, uid, targets, text).wf(),
    decreases targets.len(),
{
    if targets.len() > 0 {
        lemma_message_step_wf(s, uid, targets.drop_last(), text);
        lemma_message_one_wf(message_step(s, uid, targets.drop_last(), text), uid, targets.last(), text);
    }
}

/// A farewell keeps the registry consistent.
pub proof fn lemma_farewell_wf(s: CoreView, uid: u32, words: Seq<char>)
    requires
        s.wf(),
    ensures
        farewell(s, uid, words).wf(),
{
    if s.has_user(uid) {
        let line = crate::text::bytes_of(crate::lines::quit_text(s.user(uid), words));
        let told = s.broadcast_except(s.peer_ids(s.user_key(uid)), uid, line);
        lemma_broadcast_except_wf(s, s.peer_ids(s.user_key(uid)), uid, line);
        assert(told.users == s.users);
        assert(told.has_user(uid) == s.has_user(uid));
        lemma_leave_all_wf(told, uid);
    }
}

/// `QUIT` keeps the registry consistent.
pub proof fn lemma_quit_step_wf(s: CoreView, id: u32, msg: Option<Seq<char>>)
    requires
        s.wf(),
    ensures
        quit_step(s, id, msg).wf(),
{
    let words = match msg {
        Some(m) => m,
        None => crate::dispatch::default_farewell(),
    };
    if s.has_client(id) {
        lemma_kill_wf(s, id);
        match s.client(id).client_type {
            ClientTypeView::User(uid) => {
                lemma_farewell_wf(s, uid, words);
                lemma_kill_wf(farewell(s, uid, words), id);
            },
            _ => {},
        }
    }
}

/// Teardown keeps the registry consistent and leaves no reference to the
/// client behind.
pub proof fn lemma_disconnect_step_wf(s: CoreView, id: u32)
    requires
        s.wf(),
    ensures
        disconnect_step(s, id).wf(),
        !disconnect_step(s, id).refers_to(id),
{
    lemma_remove_client_clean(s, id);
    if s.has_client(id) {
        match s.client(id).client_type {
            ClientTypeView::User(uid) => {
                lemma_farewell_wf(s, uid, crate::lines::closed_text());
                lemma_remove_client_clean(farewell(s, uid, crate::lines::closed_text()), id);
            },
            _ => {},
        }
    }
}

/// Every command keeps the registry consistent.
pub proof fn lemma_command_step_wf(s: CoreView, id: u32, host: HostView, cmd: CommandView)
    requires
        s.wf(),
    ensures
        command_step(s, id, host, cmd).wf(),
{
    lemma_refused_wf(s, id, Error::NotRegistered, Seq::empty());
    match cmd {
        CommandView::Nick(n) => lemma_nick_step_wf(s, id, n, host),
        CommandView::User(u, _, r) => lemma_user_step_wf(s, id, u, r, host),
        CommandView::Quit(m) => lemma_quit_step_wf(s, id, m),
        CommandView::Join(names) => match acting_user(s, id) {
            Some(uid) => lemma_join_step_wf(s, uid, names),
            None => {},
        },
        CommandView::Part(names, m) => match acting_user(s, id) {
            Some(uid) => lemma_part_step_wf(s, uid, names, m),
            None => {},
        },
        CommandView::Message(targets, text) => match acting_user(s, id) {
            Some(uid) => lemma_message_step_wf(s, uid, targets, text),
            None => {},
        },
    }
}

/// Every message keeps the registry consistent.
pub proof fn lemma_message_effect_wf(s: CoreView, id: u32, host: HostView, msg: ParsedMsgView)
    requires
        s.wf(),
    ensures
        message_effect(s, id, host, msg).wf(),
{
    match command_of(msg) {
        Ok(cmd) => lemma_command_step_wf(s, id, host, cmd),
        Err(r) => lemma_refused_wf(s, id, r.error, r.arg),
    }
}

/// Every line of input keeps the registry consistent.
pub proof fn lemma_text_effect_wf(s: CoreView, id: u32, host: HostView, text: Seq<char>)
    requires
        s.wf(),
    ensures
        text_effect(s, id, host, text).wf(),
{
    match text_command(text) {
        Ok(ClientCommandView::Empty) => {},
        Ok(ClientCommandView::Message(m)) => lemma_message_effect_wf(s, id, host, m),
        Err(_) => lemma_refused_wf(s, id, Error::UnknownCommand, "*"@),
    }
}

/// Handling the input of a client keeps the registry consistent.
pub proof fn lemma_drained_wf(s: CoreView, id: u32, host: HostView, budget: nat)
    requires
        s.wf(),
    ensures
        drained(s, id, host, budget).wf(),
    decreases budget,
{
    if budget > 0 && line_ready(s, id) {
        let input = s.client(id).input;
        lemma_user_client(s, id);
        lemma_first_delim_exists(input);
        lemma_set_input_wf(s, id, after_first_line(input));
        lemma_text_effect_wf(s.set_input(id, after_first_line(input)), id, host, lossy_text(first_line(input)));
        lemma_drained_wf(next_line_effect(s, id, host), id, host, (budget - 1) as nat);
    }
}

/// Every step of a connection's task leads from a consistent registry and
/// a task in order to a consistent registry and a task in order; a task
/// that completes leaves no reference to its client behind.
pub proof fn lemma_poll_keeps_consistent(f: ClientFutureView, s: CoreView, event: IoEventView)
    requires
        s.wf(),
        f.wf(),
    ensures
        f.poll_spec(s, event).core.wf(),
        f.poll_spec(s, event).task.wf(),
        f.stage != Stage::Done && f.poll_spec(s, event).task.stage == Stage::Done ==> !f.poll_spec(
            s,
            event,
        ).core.refers_to(f.id),
{
    lemma_disconnect_step_wf(s, f.id);
    lemma_set_handler_wf(s, f.id);
    if s.has_client(f.id) {
        lemma_user_client(s, f.id);
        let c = s.client(f.id);
        match f.stage {
            Stage::Flushing => {
                let left = f.scratch.len() - f.done;
                match event {
                    IoEventView::Wrote(k) => {
                        let took = if k <= left {
                            k as int
                        } else {
                            left
                        };
                        lemma_set_output_wf(s, f.id, drop_front(c.output, f.done + took));
                    },
                    _ => {},
                }
                lemma_set_output_wf(s, f.id, drop_front(c.output, f.done as int));
            },
            Stage::Reading => {
                match event {
                    IoEventView::Received(bytes) => {
                        if c.input.len() + f.scratch.len() + bytes.len() <= MAX_MSG_SIZE {
                            let fed = s.set_input(f.id, c.input + (f.scratch + bytes));
                            lemma_set_input_wf(s, f.id, c.input + (f.scratch + bytes));
                            lemma_drained_wf(fed, f.id, f.host, MAX_MSG_SIZE as nat);
                        }
                    },
                    _ => {},
                }
                if c.input.len() + f.scratch.len() <= MAX_MSG_SIZE {
                    let fed = s.set_input(f.id, c.input + f.scratch);
                    lemma_set_input_wf(s, f.id, c.input + f.scratch);
                    lemma_drained_wf(fed, f.id, f.host, MAX_MSG_SIZE as nat);
                }
            },
            _ => {},
        }
    }
}

// ----- commands leave the input buffers alone -----

/// Where ids and inputs agree position by position, the same clients are
/// found, with the same input.
pub proof fn lemma_same_inputs_client(t: CoreView, s: CoreView, id: u32)
    requires
        s.clients_ok(),
        t.same_inputs(s),
    ensures
        t.has_client(id) == s.has_client(id),
        s.has_client(id) ==> t.client(id).input == s.client(id).input && t.client_pos(id) == s.client_pos(id),
{
    if s.has_client(id) {
        let p = s.client_pos(id);
        assert(t.clients[p].id == id);
        let q = t.client_pos(id);
        assert(s.clients[q].id == t.clients[q].id);
        lemma_client_pos(s, q);
    }
    if t.has_client(id) {
        let q = t.client_pos(id);
        assert(s.clients[q].id == t.clients[q].id);
    }
}

proof fn lemma_same_inputs_chain(a: CoreView, b: CoreView, c: CoreView)
    requires
        a.same_inputs(b),
        b.same_inputs(c),
    ensures
        a.same_inputs(c),
{
    assert forall|i: int| 0 <= i < a.clients.len() implies (#[trigger] a.clients[i]).id == c.clients[i].id
        && a.clients[i].input == c.clients[i].input by {
        assert(b.clients[i].id == c.clients[i].id);
    }
}

proof fn lemma_join_step_inputs(s: CoreView, uid: u32, names: Seq<Seq<char>>)
    ensures
        join_step(s, uid, names).same_inputs(s),
    decreases names.len(),
{
    if names.len() > 0 {
        let before = join_step(s, uid, names.drop_last());
        lemma_join_step_inputs(s, uid, names.drop_last());
        assert(join_one(before, uid, names.last()).same_inputs(before));
        lemma_same_inputs_chain(join_one(before, uid, names.last()), before, s);
    }
}

proof fn lemma_part_step_inputs(s: CoreView, uid: u32, names: Seq<Seq<char>>, msg: Option<Seq<char>>)
    ensures
        part_step(s, uid, names, msg).same_inputs(s),
    decreases names.len(),
{
    if names.len() > 0 {
        let before = part_step(s, uid, names.drop_last(), msg);
        lemma_part_step_inputs(s, uid, names.drop_last(), msg);
        assert(part_one(before, uid, names.last(), msg).same_inputs(before));
        lemma_same_inputs_chain(part_one(before, uid, names.last(), msg), before, s);
    }
}

proof fn lemma_message_step_inputs(s: CoreView, uid: u32, targets: Seq<Seq<char>>, text: Seq<char>)
    ensures
        message_step(s, uid, targets, text).same_inputs(s),
    decreases targets.len(),
{
    if targets.len() > 0 {
        let before = message_step(s, uid, targets.drop_last(), text);
        lemma_message_step_inputs(s, uid, targets.drop_last(), text);
        assert(message_one(before, uid, targets.last(), text).same_inputs(before));
        lemma_same_inputs_chain(message_one(before, uid, targets.last(), text), before, s);
    }
}

/// No message changes the input of any client.
pub proof fn lemma_message_effect_inputs(s: CoreView, id: u32, host: HostView, msg: ParsedMsgView)
    ensures
        message_effect(s, id, host, msg).same_inputs(s),
{
    match command_of(msg) {
        Ok(cmd) => match cmd {
            CommandView::Nick(n) => {
                assert(nick_step(s, id, n, host).same_inputs(s));
            },
            CommandView::User(u, _, r) => {
                assert(user_step(s, id, u, r, host).same_inputs(s));
            },
            CommandView::Quit(m) => {
                assert(quit_step(s, id, m).same_inputs(s));
            },
            CommandView::Join(names) => match acting_user(s, id) {
                Some(uid) => lemma_join_step_inputs(s, uid, names),
                None => {},
            },
            CommandView::Part(names, m) => match acting_user(s, id) {
                Some(uid) => lemma_part_step_inputs(s, uid, names, m),
                None => {},
            },
            CommandView::Message(targets, text) => match acting_user(s, id) {
                Some(uid) => lemma_message_step_inputs(s, uid, targets, text),
                None => {},
            },
        },
        Err(r) => {},
    }
}

/// Handling the input of a client leaves no whole line in it: the budget
/// of lines is never used up before the input is.
pub proof fn lemma_drained_leaves_no_line(s: CoreView, id: u32, host: HostView, budget: nat)
    requires
        s.wf(),
        s.has_client(id) ==> s.client(id).input.len() <= budget,
    ensures
        !line_ready(drained(s, id, host, budget), id),
    decreases budget,
{
    if line_ready(s, id) {
        let input = s.client(id).input;
        lemma_first_delim_exists(input);
        assert(budget > 0);
        let taken = s.set_input(id, after_first_line(input));
        lemma_set_input_wf(s, id, after_first_line(input));
        lemma_user_client(s, id);
        let p = s.client_pos(id);
        assert(taken.clients[p].id == id);
        lemma_client_pos(taken, p);
        assert(taken.client(id).input == after_first_line(input));
        let text = lossy_text(first_line(input));
        let next = text_effect(taken, id, host, text);
        lemma_text_effect_wf(taken, id, host, text);
        match text_command(text) {
            Ok(ClientCommandView::Message(m)) => lemma_message_effect_inputs(taken, id, host, m),
            _ => {},
        }
        assert(next.same_inputs(taken));
        lemma_same_inputs_client(next, taken, id);
        lemma_drained_leaves_no_line(next, id, host, (budget - 1) as nat);
    }
}

} // verus!
