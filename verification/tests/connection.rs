use irc_core::client::Client;
use irc_core::connection::{ClientFuture, IoAction, IoEvent, Stage};
use irc_core::irc::Host;
use irc_core::registry::Core;

fn peer() -> Host {
    Host::from_lookup(None, String::from("192.0.2.7"))
}

fn fresh(core: &mut Core) -> u32 {
    let id = core.allocate_client_id().unwrap();
    assert!(core.insert_client(Client::new(id)).is_ok());
    id
}

fn out_bytes(core: &Core, id: u32) -> Vec<u8> {
    let i = core.find_client(id).unwrap();
    core.clients.map[i].output.to_vec()
}

fn in_bytes(core: &Core, id: u32) -> Vec<u8> {
    let i = core.find_client(id).unwrap();
    core.clients.map[i].input.to_vec()
}

#[test]
fn host_from_lookup_prefers_the_name() {
    assert!(matches!(
        Host::from_lookup(Some(String::from("a.example")), String::from("192.0.2.7")),
        Host::Hostname(ref n) if n == "a.example"
    ));
    assert!(matches!(peer(), Host::HostAddr(ref n) if n == "192.0.2.7"));
    assert_eq!(peer().as_str(), "192.0.2.7");
}

#[test]
fn poll_reads_and_dispatches_lines() {
    let mut core = Core::new();
    let id = fresh(&mut core);
    let mut task = ClientFuture::new(id, peer());
    assert!(task.first_poll);
    assert_eq!(task.poll(&mut core, IoEvent::Wake(None)), IoAction::Read(512));
    assert_eq!(task.stage, Stage::Reading);
    assert_eq!(task.poll(&mut core, IoEvent::Received(b"NICK alice\r\nUSER a 0 ".to_vec())), IoAction::Read(491));
    assert_eq!(task.poll(&mut core, IoEvent::ReadBlocked), IoAction::NotReady);
    assert_eq!(task.stage, Stage::Idle);
    assert_eq!(in_bytes(&core, id), b"USER a 0 ".to_vec());
    assert_eq!(task.poll(&mut core, IoEvent::Wake(None)), IoAction::Read(512));
    assert_eq!(task.poll(&mut core, IoEvent::Received(b"* :Alice\r\n".to_vec())), IoAction::Read(502));
    assert_eq!(task.poll(&mut core, IoEvent::ReadBlocked), IoAction::NotReady);
    assert_eq!(in_bytes(&core, id), Vec::<u8>::new());
    assert_eq!(
        out_bytes(&core, id),
        b"001 alice :Welcome to the Internet Relay Network alice!a@192.0.2.7\r\n".to_vec()
    );
}

#[test]
fn appended_line_goes_to_the_wire_unchanged() {
    let mut core = Core::new();
    let id = fresh(&mut core);
    core.send_to(id, "hello there");
    let mut task = ClientFuture::new(id, peer());
    assert_eq!(task.poll(&mut core, IoEvent::Wake(None)), IoAction::Write);
    assert_eq!(task.pending(), b"hello there\r\n".to_vec());
    assert_eq!(task.poll(&mut core, IoEvent::Wrote(13)), IoAction::Read(512));
    assert_eq!(out_bytes(&core, id), Vec::<u8>::new());
}

#[test]
fn partial_write_leaves_the_rest_shifted() {
    let mut core = Core::new();
    let id = fresh(&mut core);
    core.send_to(id, "0123456789");
    let mut task = ClientFuture::new(id, peer());
    assert_eq!(task.poll(&mut core, IoEvent::Wake(None)), IoAction::Write);
    assert_eq!(task.poll(&mut core, IoEvent::Wrote(4)), IoAction::Write);
    assert_eq!(task.pending(), b"456789\r\n".to_vec());
    assert_eq!(task.poll(&mut core, IoEvent::WriteBlocked), IoAction::Read(512));
    assert_eq!(out_bytes(&core, id), b"456789\r\n".to_vec());
    assert_eq!(task.poll(&mut core, IoEvent::ReadBlocked), IoAction::NotReady);
    assert_eq!(task.poll(&mut core, IoEvent::Wake(None)), IoAction::Write);
    assert_eq!(task.pending(), b"456789\r\n".to_vec());
    assert_eq!(task.poll(&mut core, IoEvent::Wrote(100)), IoAction::Read(512));
    assert_eq!(out_bytes(&core, id), Vec::<u8>::new());
}

#[test]
fn output_queued_during_a_flush_is_kept() {
    let mut core = Core::new();
    let id = fresh(&mut core);
    core.send_to(id, "one");
    let mut task = ClientFuture::new(id, peer());
    assert_eq!(task.poll(&mut core, IoEvent::Wake(None)), IoAction::Write);
    core.send_to(id, "two");
    assert_eq!(task.poll(&mut core, IoEvent::Wrote(5)), IoAction::Read(512));
    assert_eq!(out_bytes(&core, id), b"two\r\n".to_vec());
}

#[test]
fn write_failure_tears_the_client_down() {
    let mut core = Core::new();
    let id = fresh(&mut core);
    core.send_to(id, "x");
    let mut task = ClientFuture::new(id, peer());
    assert_eq!(task.poll(&mut core, IoEvent::Wake(None)), IoAction::Write);
    assert_eq!(task.poll(&mut core, IoEvent::WriteFailed), IoAction::Completed);
    assert_eq!(core.find_client(id), None);
}

#[test]
fn read_failure_tears_the_client_down() {
    let mut core = Core::new();
    let id = fresh(&mut core);
    let mut task = ClientFuture::new(id, peer());
    assert_eq!(task.poll(&mut core, IoEvent::Wake(None)), IoAction::Read(512));
    assert_eq!(task.poll(&mut core, IoEvent::ReadFailed), IoAction::Completed);
    assert_eq!(core.find_client(id), None);
}

#[test]
fn empty_read_counts_as_end_of_stream() {
    let mut core = Core::new();
    let id = fresh(&mut core);
    let mut task = ClientFuture::new(id, peer());
    assert_eq!(task.poll(&mut core, IoEvent::Wake(None)), IoAction::Read(512));
    assert_eq!(task.poll(&mut core, IoEvent::Received(Vec::new())), IoAction::Completed);
    assert_eq!(core.find_client(id), None);
}

#[test]
fn read_filling_the_input_exactly_succeeds_and_one_more_byte_tears_down() {
    let mut core = Core::new();
    let id = fresh(&mut core);
    let mut task = ClientFuture::new(id, peer());
    assert_eq!(task.poll(&mut core, IoEvent::Wake(None)), IoAction::Read(512));
    assert_eq!(task.poll(&mut core, IoEvent::Received(vec![b'a'; 512])), IoAction::NotReady);
    assert_eq!(in_bytes(&core, id).len(), 512);
    assert!(core.find_client(id).is_some());
    assert_eq!(task.poll(&mut core, IoEvent::Wake(None)), IoAction::Read(512));
    assert_eq!(task.poll(&mut core, IoEvent::Received(vec![b'b'])), IoAction::Read(511));
    assert_eq!(task.poll(&mut core, IoEvent::ReadBlocked), IoAction::Completed);
    assert_eq!(core.find_client(id), None);
    assert!(!core.receive(id, b"x"));
}

#[test]
fn line_of_510_bytes_plus_delimiter_is_accepted() {
    let mut core = Core::new();
    let id = fresh(&mut core);
    let mut task = ClientFuture::new(id, peer());
    let mut line = b"NICK ".to_vec();
    line.extend(std::iter::repeat(b'x').take(505));
    assert_eq!(line.len(), 510);
    line.extend_from_slice(b"\r\n");
    assert_eq!(task.poll(&mut core, IoEvent::Wake(None)), IoAction::Read(512));
    assert_eq!(task.poll(&mut core, IoEvent::Received(line)), IoAction::NotReady);
    assert!(core.find_client(id).is_some());
    assert_eq!(in_bytes(&core, id), Vec::<u8>::new());
    let out = String::from_utf8(out_bytes(&core, id)).unwrap();
    assert!(out.starts_with("432 * xxxx"));
    assert!(out.ends_with(" :Erroneus nickname\r\n"));
}

#[test]
fn more_bytes_than_asked_for_tear_down() {
    let mut core = Core::new();
    let id = fresh(&mut core);
    let mut task = ClientFuture::new(id, peer());
    assert_eq!(task.poll(&mut core, IoEvent::Wake(None)), IoAction::Read(512));
    assert_eq!(task.poll(&mut core, IoEvent::Received(vec![b'a'; 513])), IoAction::Completed);
    assert_eq!(core.find_client(id), None);
}

#[test]
fn events_out_of_turn_change_nothing() {
    let mut core = Core::new();
    let id = fresh(&mut core);
    let mut task = ClientFuture::new(id, peer());
    assert_eq!(task.poll(&mut core, IoEvent::Wrote(3)), IoAction::NotReady);
    assert_eq!(task.stage, Stage::Idle);
    assert_eq!(task.poll(&mut core, IoEvent::Wake(None)), IoAction::Read(512));
    assert_eq!(task.poll(&mut core, IoEvent::Wake(None)), IoAction::NotReady);
    assert_eq!(task.stage, Stage::Reading);
}

#[test]
fn input_without_a_whole_line_is_left_alone() {
    let mut core = Core::new();
    let id = fresh(&mut core);
    assert!(core.receive(id, b"NICK al"));
    irc_core::dispatch::process_input(&mut core, id, &peer());
    assert_eq!(in_bytes(&core, id), b"NICK al".to_vec());
    assert_eq!(out_bytes(&core, id), Vec::<u8>::new());
    assert!(!irc_core::dispatch::dispatch_line(&mut core, id, &peer()));
}

#[test]
fn empty_input_is_left_alone() {
    let mut core = Core::new();
    let id = fresh(&mut core);
    let other = fresh(&mut core);
    irc_core::dispatch::process_input(&mut core, id, &peer());
    irc_core::dispatch::process_input(&mut core, id, &peer());
    assert_eq!(in_bytes(&core, id), Vec::<u8>::new());
    assert_eq!(out_bytes(&core, id), Vec::<u8>::new());
    assert_eq!(out_bytes(&core, other), Vec::<u8>::new());
    assert_eq!(core.client_ids(), vec![id, other]);
    assert!(core.check());
}

#[test]
fn bytes_read_just_before_end_of_stream_are_dropped() {
    let mut core = Core::new();
    let id = fresh(&mut core);
    let other = fresh(&mut core);
    let mut task = ClientFuture::new(id, peer());
    assert_eq!(task.poll(&mut core, IoEvent::Wake(None)), IoAction::Read(512));
    assert_eq!(task.poll(&mut core, IoEvent::Received(b"NICK late\r\n".to_vec())), IoAction::Read(501));
    assert_eq!(task.poll(&mut core, IoEvent::Eof), IoAction::Completed);
    assert_eq!(core.find_client(id), None);
    assert_eq!(core.nicks.len(), 0);
    assert_eq!(out_bytes(&core, other), Vec::<u8>::new());
}

#[test]
fn dead_client_is_torn_down_at_its_next_poll() {
    let mut core = Core::new();
    let id = fresh(&mut core);
    core.kill(id);
    let mut task = ClientFuture::new(id, peer());
    assert!(task.check());
    assert_eq!(task.poll(&mut core, IoEvent::Wake(None)), IoAction::Completed);
    assert_eq!(task.stage, Stage::Done);
    assert_eq!(core.find_client(id), None);
    assert_eq!(task.unlink_client(&mut core), IoAction::Completed);
}

#[test]
fn first_poll_ends_when_a_handle_comes_along() {
    let mut core = Core::new();
    let id = fresh(&mut core);
    let mut task = ClientFuture::new(id, peer());
    assert_eq!(task.poll(&mut core, IoEvent::Wake(None)), IoAction::Read(512));
    assert!(task.first_poll);
    assert!(core.clients.map[0].handler.is_none());
    assert_eq!(task.poll(&mut core, IoEvent::ReadBlocked), IoAction::NotReady);
    let handle = futures::Future::wait(futures::future::lazy(|| {
        Ok::<futures::task::Task, ()>(futures::task::current())
    }))
    .unwrap();
    assert_eq!(task.poll(&mut core, IoEvent::Wake(Some(handle))), IoAction::Read(512));
    assert!(!task.first_poll);
    assert!(core.clients.map[0].handler.is_some());
}
