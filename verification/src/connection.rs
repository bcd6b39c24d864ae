//! The task of one connection as a step function: the caller performs
//! the socket operation that a step asks for and hands back what came of
//! it; every decision is taken here.

use vstd::prelude::*;
use vstd::string::*;
use futures::task::Task;
use crate::buffer::{crlf, drop_front, MAX_BUFFER_SIZE, MAX_MSG_SIZE};
use crate::dispatch::{disconnect, disconnect_step, drained, process_input};
use crate::irc::{Host, HostView};
use crate::model::CoreView;
use crate::laws::{lemma_client_pos, lemma_send_to_wf, lemma_set_output_wf};
use crate::registry::Core;

verus! {

/// Where a connection's task stands between two steps.
#[derive(Debug, Clone, Copy, PartialEq, Eq, Structural)]
pub enum Stage {
    /// Waiting to be woken.
    Idle,
    /// Waiting for the outcome of a write.
    Flushing,
    /// Waiting for the outcome of a read.
    Reading,
    /// The client is gone; the task is complete.
    Done,
}

/// What a step asks of the caller.
#[derive(Debug, Clone, Copy, PartialEq, Eq, Structural)]
pub enum IoAction {
    /// Write the pending bytes to the socket.
    Write,
    /// Read from the socket, so many bytes at most.
    Read(usize),
    /// Nothing more can be done now: wait to be woken.
    NotReady,
    /// The task is complete.
    Completed,
}

/// What the caller hands to a step.
pub enum IoEvent {
    /// The task was woken. At the first poll the handle of the task comes
    /// along.
    Wake(Option<Task>),
    /// The socket took so many of the pending bytes.
    Wrote(usize),
    /// The socket takes no bytes now.
    WriteBlocked,
    /// The write failed.
    WriteFailed,
    /// The socket gave these bytes.
    Received(Vec<u8>),
    /// The socket has no bytes now.
    ReadBlocked,
    /// The peer closed the connection.
    Eof,
    /// The read failed.
    ReadFailed,
}

/// Mathematical value of an `IoEvent`.
pub enum IoEventView {
    /// Woken; whether a handle of the task came along.
    Wake(bool),
    Wrote(usize),
    WriteBlocked,
    WriteFailed,
    Received(Seq<u8>),
    ReadBlocked,
    Eof,
    ReadFailed,
}

impl View for IoEvent {
    type V = IoEventView;

    open spec fn view(&self) -> IoEventView {
        match self {
            IoEvent::Wake(task) => IoEventView::Wake(task is Some),
            IoEvent::Wrote(n) => IoEventView::Wrote(*n),
            IoEvent::WriteBlocked => IoEventView::WriteBlocked,
            IoEvent::WriteFailed => IoEventView::WriteFailed,
            IoEvent::Received(b) => IoEventView::Received(b@),
            IoEvent::ReadBlocked => IoEventView::ReadBlocked,
            IoEvent::Eof => IoEventView::Eof,
            IoEvent::ReadFailed => IoEventView::ReadFailed,
        }
    }
}

/// The task of one connection.
pub struct ClientFuture {
    /// The id of the client that the task owns.
    pub id: u32,
    /// Whether the task was never polled.
    pub first_poll: bool,
    /// Where the peer connects from.
    pub host: Host,
    pub stage: Stage,
    /// While flushing: the bytes to write. While reading: the bytes read.
    pub scratch: Vec<u8>,
    /// While flushing: how many bytes of `scratch` the socket took.
    pub done: usize,
}

/// Mathematical value of a `ClientFuture`.
pub struct ClientFutureView {
    pub id: u32,
    pub first_poll: bool,
    pub host: HostView,
    pub stage: Stage,
    pub scratch: Seq<u8>,
    pub done: nat,
}

impl View for ClientFuture {
    type V = ClientFutureView;

    open spec fn view(&self) -> ClientFutureView {
        ClientFutureView {
            id: self.id,
            first_poll: self.first_poll,
            host: self.host@,
            stage: self.stage,
            scratch: self.scratch@,
            done: self.done as nat,
        }
    }
}

/// The outcome of a step: the task, the registry, and what is asked of
/// the caller.
pub struct Outcome {
    pub task: ClientFutureView,
    pub core: CoreView,
    pub action: IoAction,
}

impl ClientFutureView {
    /// While flushing, no more bytes are taken than there are; while
    /// reading, the bytes read are fewer than a full buffer.
    pub open spec fn wf(self) -> bool {
        &&& self.stage == Stage::Flushing ==> self.done <= self.scratch.len()
        &&& self.stage == Stage::Reading ==> self.scratch.len() < MAX_MSG_SIZE
    }

    /// The task at rest in the stage `stage`.
    pub open spec fn at(self, stage: Stage) -> ClientFutureView {
        ClientFutureView { stage, scratch: Seq::empty(), done: 0, ..self }
    }

    /// Teardown: the client leaves the registry and the task completes.
    pub open spec fn torn_down(self, s: CoreView) -> Outcome {
        Outcome { task: self.at(Stage::Done), core: disconnect_step(s, self.id), action: IoAction::Completed }
    }

    /// The read stage begins.
    pub open spec fn reading(self, s: CoreView) -> Outcome {
        Outcome { task: self.at(Stage::Reading), core: s, action: IoAction::Read(MAX_MSG_SIZE) }
    }

    /// A poll begins: a client that is dead or gone is torn down. At the
    /// first poll the handle of the task, if it came along, is installed
    /// in the client. Then queued output is copied for writing; without
    /// any, the read stage begins.
    pub open spec fn woken(self, s: CoreView, handle: bool) -> Outcome {
        if !s.has_client(self.id) || s.client(self.id).dead {
            self.torn_down(s)
        } else {
            let task = ClientFutureView { first_poll: self.first_poll && !handle, ..self };
            let core = if self.first_poll && handle {
                s.set_handler(self.id)
            } else {
                s
            };
            if s.client(self.id).output.len() > 0 {
                Outcome {
                    task: ClientFutureView {
                        stage: Stage::Flushing,
                        scratch: s.client(self.id).output,
                        done: 0,
                        ..task
                    },
                    core,
                    action: IoAction::Write,
                }
            } else {
                task.reading(core)
            }
        }
    }

    /// The flush ends: the bytes that the socket took leave the front of
    /// the output buffer, and the read stage begins.
    pub open spec fn flushed(self, s: CoreView) -> Outcome {
        self.reading(
            if s.has_client(self.id) {
                s.set_output(self.id, drop_front(s.client(self.id).output, self.done as int))
            } else {
                s
            },
        )
    }

    /// The socket took `k` bytes: with bytes left, another write is asked
    /// for; else the flush ends.
    pub open spec fn wrote(self, s: CoreView, k: usize) -> Outcome {
        let left = self.scratch.len() - self.done;
        let took = if k <= left {
            k as int
        } else {
            left
        };
        let task = ClientFutureView { done: (self.done + took) as nat, ..self };
        if task.done < self.scratch.len() {
            Outcome { task, core: s, action: IoAction::Write }
        } else {
            task.flushed(s)
        }
    }

    /// The read stage ends: the bytes read go to the client's input, and
    /// its lines are handled. Bytes that do not fit tear the client down.
    pub open spec fn read_done(self, s: CoreView) -> Outcome {
        if !s.has_client(self.id) || s.client(self.id).input.len() + self.scratch.len() > MAX_MSG_SIZE {
            self.torn_down(s)
        } else {
            Outcome {
                task: self.at(Stage::Idle),
                core: drained(
                    s.set_input(self.id, s.client(self.id).input + self.scratch),
                    self.id,
                    self.host,
                    MAX_MSG_SIZE as nat,
                ),
                action: IoAction::NotReady,
            }
        }
    }

    /// The socket gave `bytes`: none means the peer is gone; more than
    /// were asked for tear the client down; with room left, another read
    /// is asked for; else the read stage ends.
    pub open spec fn received(self, s: CoreView, bytes: Seq<u8>) -> Outcome {
        if bytes.len() == 0 || self.scratch.len() + bytes.len() > MAX_MSG_SIZE {
            self.torn_down(s)
        } else {
            let task = ClientFutureView { scratch: self.scratch + bytes, ..self };
            if task.scratch.len() < MAX_MSG_SIZE {
                Outcome { task, core: s, action: IoAction::Read((MAX_MSG_SIZE - task.scratch.len()) as usize) }
            } else {
                task.read_done(s)
            }
        }
    }

    /// One step of the task. An event that the stage does not wait for
    /// changes nothing.
    pub open spec fn poll_spec(self, s: CoreView, event: IoEventView) -> Outcome {
        let ignored = Outcome { task: self, core: s, action: IoAction::NotReady };
        match self.stage {
            Stage::Idle => match event {
                IoEventView::Wake(handle) => self.woken(s, handle),
                _ => ignored,
            },
            Stage::Flushing => match event {
                IoEventView::Wrote(k) => self.wrote(s, k),
                IoEventView::WriteBlocked => self.flushed(s),
                IoEventView::WriteFailed => self.torn_down(s),
                _ => ignored,
            },
            Stage::Reading => match event {
                IoEventView::Received(bytes) => self.received(s, bytes),
                IoEventView::ReadBlocked => self.read_done(s),
                IoEventView::Eof => self.torn_down(s),
                IoEventView::ReadFailed => self.torn_down(s),
                _ => ignored,
            },
            Stage::Done => Outcome { task: self, core: s, action: IoAction::Completed },
        }
    }
}

impl ClientFuture {
    /// The task of the client `id`, whose peer is `host`, before its first
    /// poll.
    pub fn new(id: u32, host: Host) -> (r: ClientFuture)
        ensures
            r@.wf(),
            r@ == (ClientFutureView {
                id,
                first_poll: true,
                host: host@,
                stage: Stage::Idle,
                scratch: Seq::empty(),
                done: 0,
            }),
    {
        ClientFuture { id, first_poll: true, host, stage: Stage::Idle, scratch: Vec::new(), done: 0 }
    }

    /// The bytes that the socket has not taken yet.
    pub fn pending(&self) -> (r: Vec<u8>)
        ensures
            r@ == drop_front(self@.scratch, self@.done as int),
    {
        let mut out: Vec<u8> = Vec::new();
        if self.done > self.scratch.len() {
            return out;
        }
        let mut i: usize = self.done;
        while i < self.scratch.len()
            invariant
                self.done <= i <= self.scratch.len(),
                out@ == self.scratch@.subrange(self.done as int, i as int),
            decreases self.scratch.len() - i,
        {
            out.push(self.scratch[i]);
            proof {
                assert(out@ =~= self.scratch@.subrange(self.done as int, i + 1));
            }
            i += 1;
        }
        proof {
            assert(out@ =~= self.scratch@.skip(self.done as int));
        }
        out
    }

    fn rest(&mut self, stage: Stage)
        ensures
            final(self)@ == old(self)@.at(stage),
    {
        self.stage = stage;
        self.scratch = Vec::new();
        self.done = 0;
    }

    /// Teardown: the client leaves the registry with everything that
    /// refers to it, and the task completes.
    pub fn unlink_client(&mut self, core: &mut Core) -> (action: IoAction)
        requires
            old(core).wf(),
        ensures
            final(core).wf(),
            !final(core)@.refers_to(old(self).id),
            (Outcome { task: final(self)@, core: final(core)@, action }) == old(self)@.torn_down(old(core)@),
    {
        disconnect(core, self.id);
        self.rest(Stage::Done);
        IoAction::Completed
    }

    fn start_read(&mut self) -> (action: IoAction)
        ensures
            final(self)@ == old(self)@.at(Stage::Reading),
            final(self)@.wf(),
            action == IoAction::Read(MAX_MSG_SIZE),
    {
        self.rest(Stage::Reading);
        IoAction::Read(MAX_MSG_SIZE)
    }

    fn wake(&mut self, core: &mut Core, handle: Option<Task>) -> (action: IoAction)
        requires
            old(core).wf(),
        ensures
            final(core).wf(),
            final(self)@.wf(),
            (Outcome { task: final(self)@, core: final(core)@, action }) == old(self)@.woken(
                old(core)@,
                handle is Some,
            ),
    {
        let i = match core.find_client(self.id) {
            Some(i) => i,
            None => {
                return self.unlink_client(core);
            },
        };
        proof {
            lemma_client_pos(core@, i as int);
        }
        if core.clients.map[i].dead {
            return self.unlink_client(core);
        }
        let queued = core.clients.map[i].output.to_vec();
        match handle {
            Some(task) => {
                if self.first_poll {
                    self.first_poll = false;
                    core.set_handler(self.id, task);
                }
            },
            None => {},
        }
        if queued.len() > 0 {
            self.scratch = queued;
            self.done = 0;
            self.stage = Stage::Flushing;
            IoAction::Write
        } else {
            self.start_read()
        }
    }

    fn finish_flush(&mut self, core: &mut Core) -> (action: IoAction)
        requires
            old(core).wf(),
        ensures
            final(core).wf(),
            final(self)@.wf(),
            (Outcome { task: final(self)@, core: final(core)@, action }) == old(self)@.flushed(old(core)@),
    {
        core.sent(self.id, self.done);
        self.start_read()
    }

    /// The flush stage: the socket took `k` of the pending bytes.
    pub fn try_flush(&mut self, core: &mut Core, k: usize) -> (action: IoAction)
        requires
            old(core).wf(),
            old(self)@.wf(),
            old(self)@.stage == Stage::Flushing,
        ensures
            final(core).wf(),
            final(self)@.wf(),
            (Outcome { task: final(self)@, core: final(core)@, action }) == old(self)@.wrote(old(core)@, k),
    {
        let left: usize = self.scratch.len() - self.done;
        let took: usize = if k <= left {
            k
        } else {
            left
        };
        self.done = self.done + took;
        if self.done < self.scratch.len() {
            IoAction::Write
        } else {
            self.finish_flush(core)
        }
    }

    fn finish_read(&mut self, core: &mut Core) -> (action: IoAction)
        requires
            old(core).wf(),
        ensures
            final(core).wf(),
            final(self)@.wf(),
            (Outcome { task: final(self)@, core: final(core)@, action }) == old(self)@.read_done(old(core)@),
    {
        if !core.receive(self.id, self.scratch.as_slice()) {
            return self.unlink_client(core);
        }
        process_input(core, self.id, &self.host);
        self.rest(Stage::Idle);
        IoAction::NotReady
    }

    /// The read stage: the socket gave `bytes`.
    pub fn try_read(&mut self, core: &mut Core, bytes: Vec<u8>) -> (action: IoAction)
        requires
            old(core).wf(),
            old(self)@.wf(),
            old(self)@.stage == Stage::Reading,
        ensures
            final(core).wf(),
            final(self)@.wf(),
            (Outcome { task: final(self)@, core: final(core)@, action }) == old(self)@.received(
                old(core)@,
                bytes@,
            ),
    {
        let room: usize = MAX_MSG_SIZE - self.scratch.len();
        if bytes.len() == 0 || bytes.len() > room {
            return self.unlink_client(core);
        }
        let mut bytes = bytes;
        self.scratch.append(&mut bytes);
        if self.scratch.len() < MAX_MSG_SIZE {
            IoAction::Read(MAX_MSG_SIZE - self.scratch.len())
        } else {
            self.finish_read(core)
        }
    }

    /// One step of the task: takes what came of the last socket operation
    /// and says what to do next.
    pub fn poll(&mut self, core: &mut Core, event: IoEvent) -> (action: IoAction)
        requires
            old(core).wf(),
            old(self)@.wf(),
        ensures
            final(core).wf(),
            final(self)@.wf(),
            (Outcome { task: final(self)@, core: final(core)@, action }) == old(self)@.poll_spec(
                old(core)@,
                event@,
            ),
    {
        match self.stage {
            Stage::Idle => match event {
                IoEvent::Wake(handle) => self.wake(core, handle),
                _ => IoAction::NotReady,
            },
            Stage::Flushing => match event {
                IoEvent::Wrote(k) => self.try_flush(core, k),
                IoEvent::WriteBlocked => self.finish_flush(core),
                IoEvent::WriteFailed => self.unlink_client(core),
                _ => IoAction::NotReady,
            },
            Stage::Reading => match event {
                IoEvent::Received(bytes) => self.try_read(core, bytes),
                IoEvent::ReadBlocked => self.finish_read(core),
                IoEvent::Eof => self.unlink_client(core),
                IoEvent::ReadFailed => self.unlink_client(core),
                _ => IoAction::NotReady,
            },
            Stage::Done => IoAction::Completed,
        }
    }

    /// Forwards `msg` to every client but the task's own.
    pub fn broadcast(&self, core: &mut Core, msg: &str)
        requires
            old(core).wf(),
        ensures
            final(core).wf(),
            final(core)@ == old(core)@.broadcast_except(old(core)@.client_ids(), self.id, msg.spec_bytes()),
    {
        let ids = core.client_ids();
        core.broadcast_except(&ids, self.id, msg);
    }
}

/// What is queued is what is written: a poll of a live client with output
/// hands the socket exactly the queued bytes, and once the socket has
/// taken them all, the output is empty and the read stage begins.
pub proof fn lemma_drain_carries_output(f: ClientFutureView, s: CoreView)
    requires
        s.wf(),
        f.stage == Stage::Idle,
        s.has_client(f.id),
        !s.client(f.id).dead,
        s.client(f.id).output.len() > 0,
    ensures
        ({
            let queued = s.client(f.id).output;
            let begun = f.poll_spec(s, IoEventView::Wake(false));
            let ended = begun.task.poll_spec(begun.core, IoEventView::Wrote(queued.len() as usize));
            &&& begun.action == IoAction::Write
            &&& begun.core == s
            &&& drop_front(begun.task.scratch, begun.task.done as int) == queued
            &&& ended.action == IoAction::Read(MAX_MSG_SIZE)
            &&& ended.core.has_client(f.id)
            &&& ended.core.client(f.id).output == Seq::<u8>::empty()
            &&& ended.core == s.set_output(f.id, Seq::empty())
        }),
{
    let queued = s.client(f.id).output;
    let begun = f.poll_spec(s, IoEventView::Wake(false));
    let ended = begun.task.poll_spec(begun.core, IoEventView::Wrote(queued.len() as usize));
    let p = s.client_pos(f.id);
    lemma_client_pos(s, p);
    assert(s.clients[p].wf());
    assert(drop_front(queued, 0) =~= queued);
    assert(drop_front(queued, queued.len() as int) =~= Seq::<u8>::empty());
    lemma_set_output_wf(s, f.id, Seq::empty());
    let t = s.set_output(f.id, Seq::empty());
    assert(t.clients[p].id == f.id);
    lemma_client_pos(t, p);
}

/// A line queued for a client with nothing else queued goes to the wire
/// as it is: the next poll hands the socket the bytes of the line and its
/// delimiter, and nothing else.
pub proof fn lemma_queued_line_reaches_wire(f: ClientFutureView, s: CoreView, line: Seq<u8>)
    requires
        s.wf(),
        f.stage == Stage::Idle,
        s.has_client(f.id),
        !s.client(f.id).dead,
        s.client(f.id).output.len() == 0,
        line.len() + 2 <= MAX_BUFFER_SIZE,
    ensures
        ({
            let queued = s.send_to(f.id, line);
            let begun = f.poll_spec(queued, IoEventView::Wake(false));
            &&& begun.action == IoAction::Write
            &&& drop_front(begun.task.scratch, begun.task.done as int) == line + crlf()
        }),
{
    let queued = s.send_to(f.id, line);
    let p = s.client_pos(f.id);
    lemma_client_pos(s, p);
    lemma_send_to_wf(s, f.id, line);
    assert(queued.clients[p].id == f.id);
    lemma_client_pos(queued, p);
    let out = queued.client(f.id).output;
    assert(out =~= line + crlf());
    assert(drop_front(out, 0) =~= out);
}

/// A partial write keeps the rest: when the socket takes `k` of the queued
/// bytes and then no more, the output holds the bytes behind the first
/// `k`, in order, and nothing else changes.
pub proof fn lemma_partial_write_keeps_rest(f: ClientFutureView, s: CoreView, k: usize)
    requires
        s.wf(),
        f.stage == Stage::Idle,
        s.has_client(f.id),
        !s.client(f.id).dead,
        k < s.client(f.id).output.len(),
    ensures
        ({
            let queued = s.client(f.id).output;
            let begun = f.poll_spec(s, IoEventView::Wake(false));
            let partly = begun.task.poll_spec(begun.core, IoEventView::Wrote(k));
            let ended = partly.task.poll_spec(partly.core, IoEventView::WriteBlocked);
            &&& partly.action == IoAction::Write
            &&& drop_front(partly.task.scratch, partly.task.done as int) == queued.skip(k as int)
            &&& ended.action == IoAction::Read(MAX_MSG_SIZE)
            &&& ended.core == s.set_output(f.id, queued.skip(k as int))
            &&& ended.core.client(f.id).output == queued.skip(k as int)
            &&& ended.core.client(f.id).output.len() == queued.len() - k
        }),
{
    let queued = s.client(f.id).output;
    let p = s.client_pos(f.id);
    lemma_client_pos(s, p);
    assert(s.clients[p].wf());
    lemma_set_output_wf(s, f.id, queued.skip(k as int));
    let t = s.set_output(f.id, queued.skip(k as int));
    assert(t.clients[p].id == f.id);
    lemma_client_pos(t, p);
}

/// The input buffer may be filled to the last byte, and no further: bytes
/// read that fill it exactly are taken and their lines handled, and the
/// task waits; one byte more tears the client down.
pub proof fn lemma_read_fills_exactly(f: ClientFutureView, s: CoreView)
    requires
        s.wf(),
        f.stage == Stage::Reading,
        s.has_client(f.id),
    ensures
        ({
            let total = s.client(f.id).input.len() + f.scratch.len();
            let ended = f.poll_spec(s, IoEventView::ReadBlocked);
            &&& total <= MAX_MSG_SIZE ==> ended.action == IoAction::NotReady && ended.task.stage == Stage::Idle
                && ended.core == drained(
                s.set_input(f.id, s.client(f.id).input + f.scratch),
                f.id,
                f.host,
                MAX_MSG_SIZE as nat,
            )
            &&& total > MAX_MSG_SIZE ==> ended.action == IoAction::Completed && ended.task.stage == Stage::Done
                && ended.core == disconnect_step(s, f.id)
        }),
{
}

} // verus!
