use irc_core::client::{Client, ClientType};
use irc_core::connection::{ClientFuture, IoAction, IoEvent, Stage};
use irc_core::dispatch::{disconnect, process_input};
use irc_core::irc::Host;
use irc_core::registry::Core;

fn host() -> Host {
    Host::Hostname(String::from("example.org"))
}

fn connect(core: &mut Core) -> u32 {
    let id = core.allocate_client_id().unwrap();
    assert!(core.insert_client(Client::new(id)).is_ok());
    id
}

fn feed(core: &mut Core, id: u32, text: &str) {
    assert!(core.check());
    assert!(core.receive(id, text.as_bytes()));
    process_input(core, id, &host());
    assert!(core.check());
}

fn output(core: &Core, id: u32) -> String {
    let i = core.find_client(id).unwrap();
    String::from_utf8(core.clients.map[i].output.to_vec()).unwrap()
}

fn take_output(core: &mut Core, id: u32) -> String {
    let out = output(core, id);
    assert!(core.sent(id, out.len()));
    out
}

fn registered(core: &mut Core, nick: &str) -> u32 {
    let id = connect(core);
    feed(core, id, &format!("NICK {}\r\nUSER {} 0 * :{}\r\n", nick, nick, nick));
    take_output(core, id);
    id
}

fn nick_entry(core: &Core, key: &str) -> Option<u32> {
    core.find_nick(key).map(|i| core.nicks[i].user_id)
}

#[test]
fn nick_then_user_registers() {
    let mut core = Core::new();
    let id = connect(&mut core);
    feed(&mut core, id, "NICK alice\r\n");
    feed(&mut core, id, "USER a 0 * :Alice\r\n");
    assert_eq!(nick_entry(&core, "alice"), Some(id));
    let u = core.find_user(id).unwrap();
    assert_eq!(core.users[u].nick, "alice");
    assert_eq!(core.users[u].username, "a");
    assert_eq!(core.users[u].real_name, "Alice");
    assert_eq!(core.users[u].id, id);
    assert!(core.users[u].flags.registered);
    assert!(matches!(core.users[u].host, Host::Hostname(ref h) if h == "example.org"));
    let c = core.find_client(id).unwrap();
    assert!(matches!(core.clients.map[c].client_type, ClientType::User(uid) if uid == id));
    assert_eq!(
        output(&core, id),
        "001 alice :Welcome to the Internet Relay Network alice!a@example.org\r\n"
    );
}

#[test]
fn user_before_nick_registers_the_same() {
    let mut core = Core::new();
    let id = connect(&mut core);
    feed(&mut core, id, "USER a 0 * :Alice\r\n");
    let c = core.find_client(id).unwrap();
    match &core.clients.map[c].client_type {
        ClientType::ProtoUser(p) => {
            assert_eq!(p.nick, None);
            assert_eq!(p.username.as_deref(), Some("a"));
            assert_eq!(p.real_name.as_deref(), Some("Alice"));
        }
        _ => panic!("not a proto user"),
    }
    assert_eq!(core.users.len(), 0);
    feed(&mut core, id, "NICK alice\r\n");
    assert_eq!(nick_entry(&core, "alice"), Some(id));
    let u = core.find_user(id).unwrap();
    assert_eq!(core.users[u].nick, "alice");
    assert_eq!(core.users[u].username, "a");
    assert_eq!(core.users[u].real_name, "Alice");
    let c = core.find_client(id).unwrap();
    assert!(matches!(core.clients.map[c].client_type, ClientType::User(uid) if uid == id));
}

#[test]
fn nick_alone_makes_a_proto_user() {
    let mut core = Core::new();
    let id = connect(&mut core);
    feed(&mut core, id, "NICK alice\r\n");
    let c = core.find_client(id).unwrap();
    match &core.clients.map[c].client_type {
        ClientType::ProtoUser(p) => {
            assert_eq!(p.nick.as_deref(), Some("alice"));
            assert_eq!(p.username, None);
            assert_eq!(p.real_name, None);
        }
        _ => panic!("not a proto user"),
    }
    feed(&mut core, id, "NICK alicia\r\n");
    let c = core.find_client(id).unwrap();
    match &core.clients.map[c].client_type {
        ClientType::ProtoUser(p) => assert_eq!(p.nick.as_deref(), Some("alicia")),
        _ => panic!("not a proto user"),
    }
    assert_eq!(output(&core, id), "");
    assert_eq!(core.nicks.len(), 0);
}

#[test]
fn duplicate_nick_is_refused() {
    let mut core = Core::new();
    let a = registered(&mut core, "alice");
    let b = connect(&mut core);
    feed(&mut core, b, "NICK alice\r\n");
    assert_eq!(output(&core, b), "433 * alice :Nickname is already in use\r\n");
    assert_eq!(nick_entry(&core, "alice"), Some(a));
    assert_eq!(core.users.len(), 1);
    assert_eq!(core.nicks.len(), 1);
    let c = core.find_client(b).unwrap();
    assert!(matches!(core.clients.map[c].client_type, ClientType::Unknown));
    assert_eq!(output(&core, a), "");
}

#[test]
fn duplicate_nick_in_other_case_is_refused() {
    let mut core = Core::new();
    let a = registered(&mut core, "alice");
    let b = registered(&mut core, "bob");
    feed(&mut core, b, "NICK ALICE\r\n");
    assert_eq!(output(&core, b), "433 bob ALICE :Nickname is already in use\r\n");
    assert_eq!(nick_entry(&core, "alice"), Some(a));
    assert_eq!(nick_entry(&core, "bob"), Some(b));
}

#[test]
fn channel_join_and_broadcast() {
    let mut core = Core::new();
    let alice = registered(&mut core, "alice");
    let bob = registered(&mut core, "bob");
    feed(&mut core, alice, "JOIN #chat\r\n");
    feed(&mut core, bob, "JOIN #chat\r\n");
    assert_eq!(
        output(&core, alice),
        ":alice!alice@example.org JOIN #chat\r\n:bob!bob@example.org JOIN #chat\r\n"
    );
    assert_eq!(output(&core, bob), ":bob!bob@example.org JOIN #chat\r\n");
    take_output(&mut core, alice);
    take_output(&mut core, bob);
    feed(&mut core, alice, "PRIVMSG #chat :hello\r\n");
    assert_eq!(output(&core, bob), ":alice!alice@example.org PRIVMSG #chat :hello\r\n");
    assert_eq!(output(&core, alice), "");
    let ch = core.find_channel("#chat").unwrap();
    assert_eq!(ch.users.len(), 2);
    assert_eq!(ch.users[0].nick, "alice");
    assert_eq!(ch.users[1].nick, "bob");
    assert_eq!(ch.topic, "");
    assert!(!ch.users[0].flags.chan_op && !ch.users[0].flags.chan_halfop && !ch.users[0].flags.chan_voice);
    let u = core.find_user(alice).unwrap();
    assert_eq!(core.users[u].channel_list, vec![String::from("#chat")]);
}

#[test]
fn each_joiner_sees_a_line_per_join_when_both_are_in() {
    let mut core = Core::new();
    let alice = registered(&mut core, "alice");
    let bob = registered(&mut core, "bob");
    let carol = registered(&mut core, "carol");
    feed(&mut core, alice, "JOIN #chat\r\n");
    feed(&mut core, bob, "JOIN #chat\r\n");
    feed(&mut core, carol, "JOIN #chat\r\n");
    assert_eq!(
        output(&core, bob),
        ":bob!bob@example.org JOIN #chat\r\n:carol!carol@example.org JOIN #chat\r\n"
    );
    assert_eq!(output(&core, carol), ":carol!carol@example.org JOIN #chat\r\n");
}

#[test]
fn privmsg_to_unknown_target() {
    let mut core = Core::new();
    let alice = registered(&mut core, "alice");
    let bob = registered(&mut core, "bob");
    feed(&mut core, alice, "PRIVMSG nobody :hi\r\n");
    assert_eq!(output(&core, alice), "401 alice nobody :No such nick/channel\r\n");
    assert_eq!(output(&core, bob), "");
    assert_eq!(core.users.len(), 2);
    assert_eq!(core.channels.len(), 0);
    take_output(&mut core, alice);
    feed(&mut core, alice, "PRIVMSG #nowhere :hi\r\n");
    assert_eq!(output(&core, alice), "401 alice #nowhere :No such nick/channel\r\n");
}

#[test]
fn privmsg_to_nick_reaches_only_that_user() {
    let mut core = Core::new();
    let alice = registered(&mut core, "alice");
    let bob = registered(&mut core, "bob");
    let carol = registered(&mut core, "carol");
    feed(&mut core, alice, "PRIVMSG Bob :psst\r\n");
    assert_eq!(output(&core, bob), ":alice!alice@example.org PRIVMSG Bob :psst\r\n");
    assert_eq!(output(&core, alice), "");
    assert_eq!(output(&core, carol), "");
}

#[test]
fn privmsg_to_several_targets() {
    let mut core = Core::new();
    let alice = registered(&mut core, "alice");
    let bob = registered(&mut core, "bob");
    let carol = registered(&mut core, "carol");
    feed(&mut core, alice, "PRIVMSG bob,carol,dave :hey\r\n");
    assert_eq!(output(&core, bob), ":alice!alice@example.org PRIVMSG bob :hey\r\n");
    assert_eq!(output(&core, carol), ":alice!alice@example.org PRIVMSG carol :hey\r\n");
    assert_eq!(output(&core, alice), "401 alice dave :No such nick/channel\r\n");
}

#[test]
fn privmsg_without_recipient_or_text() {
    let mut core = Core::new();
    let alice = registered(&mut core, "alice");
    feed(&mut core, alice, "PRIVMSG\r\n");
    assert_eq!(take_output(&mut core, alice), "411 alice :No recipient given (PRIVMSG)\r\n");
    feed(&mut core, alice, "PRIVMSG :only text\r\n");
    assert_eq!(take_output(&mut core, alice), "411 alice :No recipient given (PRIVMSG)\r\n");
    feed(&mut core, alice, "PRIVMSG bob\r\n");
    assert_eq!(take_output(&mut core, alice), "412 alice :No text to send\r\n");
}

#[test]
fn abrupt_disconnect_cleans_up_and_tells_peers() {
    let mut core = Core::new();
    let alice = registered(&mut core, "alice");
    let bob = registered(&mut core, "bob");
    feed(&mut core, alice, "JOIN #chat\r\n");
    feed(&mut core, bob, "JOIN #chat\r\n");
    take_output(&mut core, alice);
    take_output(&mut core, bob);
    disconnect(&mut core, alice);
    assert!(core.check());
    assert_eq!(core.find_client(alice), None);
    assert_eq!(core.find_user(alice), None);
    assert_eq!(nick_entry(&core, "alice"), None);
    let ch = core.find_channel("#chat").unwrap();
    assert_eq!(ch.users.len(), 1);
    assert_eq!(ch.users[0].nick, "bob");
    assert_eq!(output(&core, bob), ":alice!alice@example.org QUIT :connection closed\r\n");
    assert_eq!(nick_entry(&core, "bob"), Some(bob));
}

#[test]
fn socket_close_during_poll_tears_the_client_down() {
    let mut core = Core::new();
    let alice = registered(&mut core, "alice");
    let bob = registered(&mut core, "bob");
    feed(&mut core, alice, "JOIN #chat\r\n");
    feed(&mut core, bob, "JOIN #chat\r\n");
    take_output(&mut core, alice);
    take_output(&mut core, bob);
    let mut task = ClientFuture::new(alice, host());
    assert_eq!(task.poll(&mut core, IoEvent::Wake(None)), IoAction::Read(512));
    assert_eq!(task.poll(&mut core, IoEvent::Eof), IoAction::Completed);
    assert_eq!(task.stage, Stage::Done);
    assert_eq!(core.find_client(alice), None);
    assert_eq!(core.find_user(alice), None);
    assert_eq!(nick_entry(&core, "alice"), None);
    assert_eq!(core.find_channel("#chat").unwrap().users.len(), 1);
    assert_eq!(output(&core, bob), ":alice!alice@example.org QUIT :connection closed\r\n");
    assert_eq!(task.poll(&mut core, IoEvent::Wake(None)), IoAction::Completed);
}

#[test]
fn quit_tells_peers_once_and_marks_dead() {
    let mut core = Core::new();
    let alice = registered(&mut core, "alice");
    let bob = registered(&mut core, "bob");
    feed(&mut core, alice, "JOIN #a,#b\r\n");
    feed(&mut core, bob, "JOIN #a,#b\r\n");
    take_output(&mut core, alice);
    take_output(&mut core, bob);
    feed(&mut core, alice, "QUIT :bye now\r\n");
    assert_eq!(output(&core, bob), ":alice!alice@example.org QUIT :bye now\r\n");
    assert_eq!(output(&core, alice), "");
    let c = core.find_client(alice).unwrap();
    assert!(core.clients.map[c].dead);
    assert_eq!(core.find_channel("#a").unwrap().users.len(), 1);
    assert_eq!(core.find_channel("#b").unwrap().users.len(), 1);
    let u = core.find_user(alice).unwrap();
    assert!(core.users[u].channel_list.is_empty());
    let mut task = ClientFuture::new(alice, host());
    assert_eq!(task.poll(&mut core, IoEvent::Wake(None)), IoAction::Completed);
    assert_eq!(core.find_client(alice), None);
    assert_eq!(output(&core, bob), ":alice!alice@example.org QUIT :bye now\r\n");
}

#[test]
fn quit_without_message_uses_default() {
    let mut core = Core::new();
    let alice = registered(&mut core, "alice");
    let bob = registered(&mut core, "bob");
    feed(&mut core, alice, "JOIN #a\r\n");
    feed(&mut core, bob, "JOIN #a\r\n");
    take_output(&mut core, bob);
    feed(&mut core, alice, "quit\r\n");
    assert_eq!(output(&core, bob), ":alice!alice@example.org QUIT :Client Quit\r\n");
}

#[test]
fn quit_of_unregistered_client_marks_dead() {
    let mut core = Core::new();
    let id = connect(&mut core);
    feed(&mut core, id, "QUIT\r\n");
    let c = core.find_client(id).unwrap();
    assert!(core.clients.map[c].dead);
}

#[test]
fn part_tells_members_and_deletes_empty_channel() {
    let mut core = Core::new();
    let alice = registered(&mut core, "alice");
    let bob = registered(&mut core, "bob");
    feed(&mut core, alice, "JOIN #chat\r\n");
    feed(&mut core, bob, "JOIN #chat\r\n");
    take_output(&mut core, alice);
    take_output(&mut core, bob);
    feed(&mut core, alice, "PART #chat :gone\r\n");
    assert_eq!(output(&core, alice), ":alice!alice@example.org PART #chat :gone\r\n");
    assert_eq!(output(&core, bob), ":alice!alice@example.org PART #chat :gone\r\n");
    assert_eq!(core.find_channel("#chat").unwrap().users.len(), 1);
    let u = core.find_user(alice).unwrap();
    assert!(core.users[u].channel_list.is_empty());
    take_output(&mut core, bob);
    feed(&mut core, bob, "PART #chat\r\n");
    assert_eq!(output(&core, bob), ":bob!bob@example.org PART #chat\r\n");
    assert!(core.find_channel("#chat").is_none());
    assert_eq!(core.channels.len(), 0);
}

#[test]
fn part_of_unknown_channel_is_silent() {
    let mut core = Core::new();
    let alice = registered(&mut core, "alice");
    feed(&mut core, alice, "PART #nowhere\r\n");
    assert_eq!(output(&core, alice), "");
    assert_eq!(core.channels.len(), 0);
}

#[test]
fn join_twice_changes_nothing() {
    let mut core = Core::new();
    let alice = registered(&mut core, "alice");
    feed(&mut core, alice, "JOIN #chat\r\n");
    take_output(&mut core, alice);
    feed(&mut core, alice, "JOIN #CHAT\r\n");
    assert_eq!(output(&core, alice), "");
    assert_eq!(core.channels.len(), 1);
    assert_eq!(core.channels[0].name, "#chat");
    assert_eq!(core.channels[0].users.len(), 1);
    let u = core.find_user(alice).unwrap();
    assert_eq!(core.users[u].channel_list.len(), 1);
}

#[test]
fn rename_updates_nick_table_and_memberships() {
    let mut core = Core::new();
    let alice = registered(&mut core, "alice");
    let bob = registered(&mut core, "bob");
    feed(&mut core, alice, "JOIN #chat\r\n");
    feed(&mut core, bob, "JOIN #chat\r\n");
    take_output(&mut core, alice);
    take_output(&mut core, bob);
    feed(&mut core, alice, "NICK Alicia\r\n");
    assert_eq!(nick_entry(&core, "alice"), None);
    assert_eq!(nick_entry(&core, "alicia"), Some(alice));
    let u = core.find_user(alice).unwrap();
    assert_eq!(core.users[u].nick, "Alicia");
    let ch = core.find_channel("#chat").unwrap();
    assert_eq!(ch.users[0].nick, "alicia");
    assert_eq!(ch.users[1].nick, "bob");
    feed(&mut core, bob, "PRIVMSG alicia :hi\r\n");
    assert_eq!(output(&core, alice), ":bob!bob@example.org PRIVMSG alicia :hi\r\n");
    let found = core.find_user_by_nick("ALICIA").unwrap();
    assert_eq!(found.id, alice);
    assert!(core.find_user_by_nick("alice").is_none());
}

#[test]
fn rename_to_other_spelling_of_own_nick_is_allowed() {
    let mut core = Core::new();
    let alice = registered(&mut core, "alice");
    feed(&mut core, alice, "NICK ALICE\r\n");
    assert_eq!(output(&core, alice), "");
    let u = core.find_user(alice).unwrap();
    assert_eq!(core.users[u].nick, "ALICE");
    assert_eq!(nick_entry(&core, "alice"), Some(alice));
}

#[test]
fn user_when_registered_is_refused() {
    let mut core = Core::new();
    let alice = registered(&mut core, "alice");
    feed(&mut core, alice, "USER x 0 * :X\r\n");
    assert_eq!(output(&core, alice), "462 alice :You may not reregister\r\n");
}

#[test]
fn missing_parameters_are_refused() {
    let mut core = Core::new();
    let id = connect(&mut core);
    feed(&mut core, id, "NICK\r\n");
    assert_eq!(take_output(&mut core, id), "461 * NICK :Not enough parameters\r\n");
    feed(&mut core, id, "USER a 0 *\r\n");
    assert_eq!(take_output(&mut core, id), "461 * USER :Not enough parameters\r\n");
    feed(&mut core, id, "join\r\n");
    assert_eq!(take_output(&mut core, id), "461 * JOIN :Not enough parameters\r\n");
    feed(&mut core, id, "PART\r\n");
    assert_eq!(take_output(&mut core, id), "461 * PART :Not enough parameters\r\n");
}

#[test]
fn unknown_command_and_bad_lines_are_refused() {
    let mut core = Core::new();
    let id = connect(&mut core);
    feed(&mut core, id, "FROB x\r\n");
    assert_eq!(take_output(&mut core, id), "421 * FROB :Unknown command\r\n");
    feed(&mut core, id, "N1CK x\r\n");
    assert_eq!(take_output(&mut core, id), "421 * * :Unknown command\r\n");
    feed(&mut core, id, "\r\n");
    assert_eq!(take_output(&mut core, id), "");
}

#[test]
fn unregistered_client_may_not_join_or_talk() {
    let mut core = Core::new();
    let id = connect(&mut core);
    feed(&mut core, id, "JOIN #chat\r\n");
    assert_eq!(take_output(&mut core, id), "451 * :You have not registered\r\n");
    feed(&mut core, id, "NICK zed\r\nPRIVMSG #chat :hi\r\n");
    assert_eq!(take_output(&mut core, id), "451 zed :You have not registered\r\n");
    feed(&mut core, id, "PART #chat\r\n");
    assert_eq!(take_output(&mut core, id), "451 zed :You have not registered\r\n");
    assert_eq!(core.channels.len(), 0);
}

#[test]
fn bad_nick_is_refused() {
    let mut core = Core::new();
    let id = connect(&mut core);
    feed(&mut core, id, "NICK 1abc\r\n");
    assert_eq!(take_output(&mut core, id), "432 * 1abc :Erroneus nickname\r\n");
    feed(&mut core, id, "NICK abcdefghij\r\n");
    assert_eq!(take_output(&mut core, id), "432 * abcdefghij :Erroneus nickname\r\n");
    feed(&mut core, id, "NICK a-b[c]\r\n");
    assert_eq!(take_output(&mut core, id), "");
}

#[test]
fn nick_taken_between_nick_and_user() {
    let mut core = Core::new();
    let a = connect(&mut core);
    let b = connect(&mut core);
    feed(&mut core, a, "NICK sam\r\n");
    feed(&mut core, b, "NICK sam\r\nUSER b 0 * :B\r\n");
    take_output(&mut core, b);
    feed(&mut core, a, "USER a 0 * :A\r\n");
    assert_eq!(output(&core, a), "433 * sam :Nickname is already in use\r\n");
    let c = core.find_client(a).unwrap();
    match &core.clients.map[c].client_type {
        ClientType::ProtoUser(p) => {
            assert_eq!(p.nick, None);
            assert_eq!(p.username.as_deref(), Some("a"));
        }
        _ => panic!("not a proto user"),
    }
    assert_eq!(nick_entry(&core, "sam"), Some(b));
}

#[test]
fn output_overflow_marks_the_client_dead() {
    let mut core = Core::new();
    let alice = registered(&mut core, "alice");
    let bob = registered(&mut core, "bob");
    let text = "x".repeat(400);
    for _ in 0..9 {
        feed(&mut core, alice, &format!("PRIVMSG bob :{}\r\n", text));
    }
    let i = core.find_client(bob).unwrap();
    assert!(!core.clients.map[i].dead);
    let before = core.clients.map[i].output.len();
    assert!(before <= 4096);
    feed(&mut core, alice, &format!("PRIVMSG bob :{}\r\n", text));
    let i = core.find_client(bob).unwrap();
    assert!(core.clients.map[i].dead);
    assert_eq!(core.clients.map[i].output.len(), before);
}

#[test]
fn ids_are_given_out_in_order() {
    let mut core = Core::new();
    assert_eq!(core.allocate_client_id(), Some(0));
    assert_eq!(core.allocate_client_id(), Some(1));
    assert!(core.insert_client(Client::new(1)).is_ok());
    assert!(core.insert_client(Client::new(1)).is_err());
    assert!(core.insert_client(Client::new(7)).is_err());
    assert_eq!(core.client_ids(), vec![1]);
    core.clients.next_id = u32::MAX;
    assert_eq!(core.allocate_client_id(), None);
}

#[test]
fn get_or_create_channel_creates_once() {
    let mut core = Core::new();
    let p = core.get_or_create_channel("#Chat");
    assert_eq!(p, 0);
    assert_eq!(core.channels[0].name, "#chat");
    assert_eq!(core.channels[0].users.len(), 0);
    assert_eq!(core.get_or_create_channel("#CHAT"), 0);
    assert_eq!(core.get_or_create_channel("#other"), 1);
    assert_eq!(core.channels.len(), 2);
}

#[test]
fn removing_an_unknown_client_changes_nothing() {
    let mut core = Core::new();
    let alice = registered(&mut core, "alice");
    core.remove_client(99);
    assert_eq!(core.find_client(alice), Some(0));
    assert_eq!(core.users.len(), 1);
    assert_eq!(core.nicks.len(), 1);
}

#[test]
fn task_broadcast_reaches_everyone_else() {
    let mut core = Core::new();
    let a = connect(&mut core);
    let b = connect(&mut core);
    let c = connect(&mut core);
    let task = ClientFuture::new(b, host());
    task.broadcast(&mut core, "hello all");
    assert_eq!(output(&core, a), "hello all\r\n");
    assert_eq!(output(&core, b), "");
    assert_eq!(output(&core, c), "hello all\r\n");
}

#[test]
fn check_finds_a_nick_held_twice() {
    let mut core = Core::new();
    let _alice = registered(&mut core, "alice");
    let bob = registered(&mut core, "bob");
    assert!(core.check());
    let u = core.find_user(bob).unwrap();
    core.users[u].nick = String::from("Alice");
    core.nicks[u].nick = String::from("alice");
    assert!(!core.check());
}

#[test]
fn check_finds_a_member_without_user() {
    let mut core = Core::new();
    let alice = registered(&mut core, "alice");
    feed(&mut core, alice, "JOIN #chat\r\n");
    assert!(core.check());
    core.channels[0].users[0].nick = String::from("ghost");
    assert!(!core.check());
}

#[test]
fn check_finds_a_user_without_client() {
    let mut core = Core::new();
    let alice = registered(&mut core, "alice");
    let i = core.find_client(alice).unwrap();
    core.clients.map.remove(i);
    assert!(!core.check());
}

#[test]
fn distinct_users_have_distinct_canonical_nicks() {
    let mut core = Core::new();
    for nick in ["alice", "Bob", "CAROL", "dave"] {
        registered(&mut core, nick);
    }
    let other = connect(&mut core);
    feed(&mut core, other, "NICK bob\r\nUSER x 0 * :X\r\n");
    assert_eq!(core.users.len(), 4);
    for i in 0..core.users.len() {
        for j in 0..core.users.len() {
            if i != j {
                assert_ne!(
                    irc_core::text::canonical_name(&core.users[i].nick),
                    irc_core::text::canonical_name(&core.users[j].nick)
                );
            }
        }
    }
}

#[test]
fn every_member_is_a_live_user() {
    let mut core = Core::new();
    let alice = registered(&mut core, "alice");
    let bob = registered(&mut core, "bob");
    let carol = registered(&mut core, "carol");
    feed(&mut core, alice, "JOIN #a,#b\r\n");
    feed(&mut core, bob, "JOIN #b,#c\r\n");
    feed(&mut core, carol, "JOIN #a,#c\r\n");
    feed(&mut core, bob, "NICK robert\r\n");
    feed(&mut core, carol, "PART #a\r\n");
    disconnect(&mut core, alice);
    for ch in core.channels.iter() {
        for m in ch.users.iter() {
            let user = core.find_user_by_nick(&m.nick).unwrap();
            assert_eq!(irc_core::text::canonical_name(&user.nick), m.nick);
            assert!(core.find_client(user.id).is_some());
        }
    }
    assert_eq!(core.channels.len(), 3);
}
