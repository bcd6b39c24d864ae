use futures::Future;
use irc_core::client::{Client, ClientType};
use irc_core::connection::{ClientFuture, IoAction, IoEvent};
use irc_core::irc::{Host, ProtoUser};
use irc_core::registry::{contains_id, without_name, Core, RegistryError};

fn here() -> Host {
    Host::Hostname(String::from("h.example"))
}

fn add(core: &mut Core) -> u32 {
    let id = core.allocate_client_id().unwrap();
    assert!(core.insert_client(Client::new(id)).is_ok());
    id
}

fn user(core: &mut Core, nick: &str) -> u32 {
    let id = add(core);
    assert_eq!(
        core.register(id, String::from(nick), String::from("u"), String::from("Real Name"), here()),
        Ok(())
    );
    id
}

fn out(core: &Core, id: u32) -> Vec<u8> {
    core.clients.map[core.find_client(id).unwrap()].output.to_vec()
}

#[test]
fn register_reports_each_refusal() {
    let mut core = Core::new();
    let a = user(&mut core, "alice");
    let b = add(&mut core);
    assert_eq!(
        core.register(77, String::from("x"), String::from("u"), String::from("r"), here()),
        Err(RegistryError::NoSuchClient)
    );
    assert_eq!(
        core.register(a, String::from("other"), String::from("u"), String::from("r"), here()),
        Err(RegistryError::AlreadyRegistered)
    );
    assert_eq!(
        core.register(b, String::from("ALICE"), String::from("u"), String::from("r"), here()),
        Err(RegistryError::NickInUse)
    );
    assert_eq!(core.users.len(), 1);
    assert_eq!(core.nicks.len(), 1);
    assert!(core.check());
}

#[test]
fn rename_reports_each_refusal() {
    let mut core = Core::new();
    let a = user(&mut core, "alice");
    let _b = user(&mut core, "bob");
    assert_eq!(core.rename(99, String::from("zed")), Err(RegistryError::NoSuchUser));
    assert_eq!(core.rename(a, String::from("Bob")), Err(RegistryError::NickInUse));
    assert_eq!(core.rename(a, String::from("Alice")), Ok(()));
    assert_eq!(core.rename(a, String::from("zed")), Ok(()));
    assert_eq!(core.nicks[0].nick, "zed");
    assert_eq!(core.users[0].nick, "zed");
    assert!(core.check());
}

#[test]
fn join_and_part_say_whether_they_changed_anything() {
    let mut core = Core::new();
    let a = user(&mut core, "alice");
    assert!(!core.join(42, "#x"));
    assert!(core.join(a, "#X"));
    assert!(!core.join(a, "#x"));
    assert!(!core.part(a, "#y"));
    assert!(!core.part(42, "#x"));
    assert_eq!(core.users[0].channel_list, vec![String::from("#x")]);
    assert!(core.part(a, "#x"));
    assert!(!core.part(a, "#x"));
    assert_eq!(core.channels.len(), 0);
    assert!(core.users[0].channel_list.is_empty());
    assert!(core.check());
}

#[test]
fn targets_and_peers_follow_the_members() {
    let mut core = Core::new();
    let a = user(&mut core, "alice");
    let b = user(&mut core, "bob");
    let c = user(&mut core, "carol");
    assert!(core.join(b, "#one"));
    assert!(core.join(a, "#one"));
    assert!(core.join(a, "#two"));
    assert!(core.join(c, "#two"));
    let one = core.find_channel_pos("#one").unwrap();
    let two = core.find_channel_pos("#two").unwrap();
    assert_eq!(core.channel_targets(one), vec![b, a]);
    assert_eq!(core.channel_targets(two), vec![a, c]);
    assert_eq!(core.peers_of("alice"), vec![b, a, a, c]);
    assert_eq!(core.peers_of("bob"), vec![b, a]);
    assert_eq!(core.peers_of("nobody"), Vec::<u32>::new());
    assert!(core.leave_all(a));
    assert!(!core.leave_all(1234));
    assert_eq!(core.channel_targets(one), vec![b]);
    assert_eq!(core.channel_targets(two), vec![c]);
    assert!(core.users[0].channel_list.is_empty());
    assert!(core.check());
}

#[test]
fn broadcast_reaches_exactly_the_targets() {
    let mut core = Core::new();
    let a = add(&mut core);
    let b = add(&mut core);
    let c = add(&mut core);
    core.broadcast(&vec![c, a, a, 99], "hi");
    assert_eq!(out(&core, a), b"hi\r\n".to_vec());
    assert_eq!(out(&core, b), Vec::<u8>::new());
    assert_eq!(out(&core, c), b"hi\r\n".to_vec());
    core.broadcast_except(&vec![a, b, c], b, "yo");
    assert_eq!(out(&core, a), b"hi\r\nyo\r\n".to_vec());
    assert_eq!(out(&core, b), Vec::<u8>::new());
    core.send_to(b, "you");
    core.send_to(500, "lost");
    assert_eq!(out(&core, b), b"you\r\n".to_vec());
}

#[test]
fn protocol_state_is_set_only_before_registration() {
    let mut core = Core::new();
    let a = add(&mut core);
    let u = user(&mut core, "bob");
    let proto = ProtoUser { nick: Some(String::from("al")), username: None, real_name: None };
    assert!(core.set_proto(a, proto.duplicate()));
    assert!(!core.set_proto(u, proto.duplicate()));
    assert!(!core.set_proto(9, proto));
    assert!(matches!(core.client_state(a), Some(ClientType::ProtoUser(ref p)) if p.nick.as_deref() == Some("al")));
    assert!(matches!(core.client_state(u), Some(ClientType::User(id)) if id == u));
    assert!(core.client_state(9).is_none());
    assert_eq!(core.reply_name(a), "al");
    assert_eq!(core.reply_name(u), "bob");
    assert_eq!(core.reply_name(9), "*");
    let fresh = add(&mut core);
    assert_eq!(core.reply_name(fresh), "*");
}

#[test]
fn kill_marks_only_that_client() {
    let mut core = Core::new();
    let a = add(&mut core);
    let b = add(&mut core);
    core.kill(b);
    core.kill(77);
    assert!(!core.clients.map[core.find_client(a).unwrap()].dead);
    assert!(core.clients.map[core.find_client(b).unwrap()].dead);
}

#[test]
fn receive_and_sent_move_bytes() {
    let mut core = Core::new();
    let a = add(&mut core);
    assert!(core.receive(a, b"abc"));
    assert!(!core.receive(a, &[0u8; 510]));
    assert!(!core.receive(5, b"x"));
    assert_eq!(core.clients.map[0].input.to_vec(), b"abc".to_vec());
    core.send_to(a, "hello");
    assert!(core.sent(a, 2));
    assert_eq!(out(&core, a), b"llo\r\n".to_vec());
    assert!(core.sent(a, 50));
    assert_eq!(out(&core, a), Vec::<u8>::new());
    assert!(!core.sent(5, 1));
}

#[test]
fn remove_client_takes_server_links_along() {
    let mut core = Core::new();
    let a = add(&mut core);
    let b = add(&mut core);
    for (id, carrier) in [(1u32, a), (2, b), (3, a)] {
        core.servers.push(irc_core::irc::Server {
            id,
            host: here(),
            users: Vec::new(),
            client_id: carrier,
        });
    }
    core.remove_client(a);
    assert_eq!(core.servers.len(), 1);
    assert_eq!(core.servers[0].id, 2);
    assert_eq!(core.client_ids(), vec![b]);
    assert!(core.check());
}

#[test]
fn small_helpers() {
    assert!(contains_id(&vec![3, 5], 5));
    assert!(!contains_id(&vec![3, 5], 4));
    assert!(!contains_id(&Vec::new(), 0));
    let names = vec![String::from("#a"), String::from("#b"), String::from("#a")];
    assert_eq!(without_name(&names, "#a"), vec!["#b"]);
    assert_eq!(without_name(&names, "#c"), names);
}

#[test]
fn a_task_handle_is_installed_and_notified() {
    let mut core = Core::new();
    let a = add(&mut core);
    let mut conn = ClientFuture::new(a, here());
    let task = futures::future::lazy(|| Ok::<futures::task::Task, ()>(futures::task::current()))
        .wait()
        .unwrap();
    assert_eq!(conn.poll(&mut core, IoEvent::Wake(Some(task))), IoAction::Read(512));
    assert!(!conn.first_poll);
    assert!(core.clients.map[0].handler.is_some());
    core.send_to(a, "ping");
    core.kill(a);
    assert_eq!(out(&core, a), b"ping\r\n".to_vec());
    assert!(core.check());
}
