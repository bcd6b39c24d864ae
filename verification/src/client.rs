//! A connected client: its buffers, its protocol state and its wake handle.

use vstd::prelude::*;
use vstd::string::*;
use futures::task::Task;
use crate::buffer::{after_first_line, crlf, first_line, has_delim_spec, MessageBuffer, MAX_BUFFER_SIZE, MAX_MSG_SIZE};
use crate::parser::{parse_line, parse_spec, ParseError, ParsedMsg, ParsedMsgView};
use crate::text::lossy_text;
use crate::irc::{ProtoUser, ProtoUserView};

verus! {

/// The handle by which the runtime is asked to poll a task again.
#[verifier::external_type_specification]
#[verifier::external_body]
pub struct ExTask(Task);

/// `Task::notify` asks the executor to poll the task's future again. It
/// returns nothing and changes nothing that the library can see.
pub assume_specification[ Task::notify ](task: &Task);

/// What a client is, from its connection to its registration.
pub enum ClientType {
    /// Nothing received yet.
    Unknown,
    /// `NICK` or `USER` received, registration not complete.
    ProtoUser(ProtoUser),
    /// A registered user, by id.
    User(u32),
    /// A peer server, by id.
    Server(u32),
}

/// Mathematical value of a `ClientType`.
pub enum ClientTypeView {
    Unknown,
    ProtoUser(ProtoUserView),
    User(u32),
    Server(u32),
}

impl View for ClientType {
    type V = ClientTypeView;

    open spec fn view(&self) -> ClientTypeView {
        match self {
            ClientType::Unknown => ClientTypeView::Unknown,
            ClientType::ProtoUser(p) => ClientTypeView::ProtoUser(p@),
            ClientType::User(id) => ClientTypeView::User(*id),
            ClientType::Server(id) => ClientTypeView::Server(*id),
        }
    }
}

/// The entity bound to one socket.
pub struct Client {
    pub id: u32,
    pub client_type: ClientType,
    /// Bytes read and not yet taken apart into lines.
    pub input: MessageBuffer,
    /// Bytes queued for the socket.
    pub output: MessageBuffer,
    /// Set at the first poll of the client's task.
    pub handler: Option<Task>,
    /// Set when the client has to be torn down.
    pub dead: bool,
}

/// Mathematical value of a `Client`.
pub struct ClientView {
    pub id: u32,
    pub client_type: ClientTypeView,
    pub input: Seq<u8>,
    pub output: Seq<u8>,
    pub has_handler: bool,
    pub dead: bool,
}

impl View for Client {
    type V = ClientView;

    open spec fn view(&self) -> ClientView {
        ClientView {
            id: self.id,
            client_type: self.client_type@,
            input: self.input@,
            output: self.output@,
            has_handler: self.handler is Some,
            dead: self.dead,
        }
    }
}

impl ClientView {
    /// Buffers within their capacities.
    pub open spec fn wf(self) -> bool {
        self.input.len() <= MAX_MSG_SIZE && self.output.len() <= MAX_BUFFER_SIZE
    }

    /// The client after `line` and its delimiter were queued for it: appended
    /// to the output where they fit, else the client is marked dead.
    pub open spec fn queue_line(self, line: Seq<u8>) -> ClientView {
        if self.output.len() + line.len() + 2 <= MAX_BUFFER_SIZE {
            ClientView { output: self.output + line + crlf(), ..self }
        } else {
            ClientView { dead: true, ..self }
        }
    }

    /// The client with another protocol state.
    pub open spec fn with_type(self, t: ClientTypeView) -> ClientView {
        ClientView { client_type: t, ..self }
    }

    /// The client marked dead.
    pub open spec fn killed(self) -> ClientView {
        ClientView { dead: true, ..self }
    }
}

impl Client {
    /// Buffers well-formed and of the capacities of their kinds.
    pub open spec fn wf(&self) -> bool {
        &&& self.input.wf()
        &&& self.output.wf()
        &&& self.input.cap() == MAX_MSG_SIZE
        &&& self.output.cap() == MAX_BUFFER_SIZE
    }

    /// A client just connected: nothing buffered, nothing known, alive.
    pub fn new(id: u32) -> (r: Client)
        ensures
            r.wf(),
            r@ == (ClientView {
                id,
                client_type: ClientTypeView::Unknown,
                input: Seq::empty(),
                output: Seq::empty(),
                has_handler: false,
                dead: false,
            }),
    {
        Client {
            id,
            client_type: ClientType::Unknown,
            input: MessageBuffer::new(),
            output: MessageBuffer::with_capacity(MAX_BUFFER_SIZE),
            handler: None,
            dead: false,
        }
    }

    /// Installs the handle of the task that owns the client.
    pub fn set_handler(&mut self, task: Task)
        requires
            old(self).wf(),
        ensures
            final(self).wf(),
            final(self)@ == (ClientView { has_handler: true, ..old(self)@ }),
    {
        self.handler = Some(task);
    }

    /// Asks for a poll of the client's task, where its handle is known.
    pub(crate) fn wake(&self) {
        match &self.handler {
            Some(task) => task.notify(),
            None => {},
        }
    }

    /// Queues `buf` and a CR-LF for the client and wakes its task. Where they
    /// do not fit into the output buffer, the client is marked dead.
    pub fn send_line(&mut self, buf: &str)
        requires
            old(self).wf(),
        ensures
            final(self).wf(),
            final(self)@ == old(self)@.queue_line(buf.spec_bytes()),
    {
        let mut line = String::from_str(buf);
        line.append("\r\n");
        self.wake();
        let ghost before = self.output@;
        proof {
            reveal_strlit("\r\n");
            crate::text::lemma_bytes_of_concat(buf@, "\r\n"@);
            crate::text::lemma_bytes_of_crlf();
        }
        match self.output.append_str(line.as_str()) {
            Ok(()) => {
                proof {
                    assert(self.output@ =~= before + buf.spec_bytes() + crlf());
                }
            },
            Err(_) => {
                self.dead = true;
            },
        }
    }
}

impl ClientType {
    /// A copy of the protocol state.
    pub fn duplicate(&self) -> (r: ClientType)
        ensures
            r@ == self@,
    {
        match self {
            ClientType::Unknown => ClientType::Unknown,
            ClientType::ProtoUser(p) => ClientType::ProtoUser(p.duplicate()),
            ClientType::User(id) => ClientType::User(*id),
            ClientType::Server(id) => ClientType::Server(*id),
        }
    }
}

/// What a line of input asks for.
pub enum ClientCommand {
    /// The line was empty: nothing.
    Empty,
    /// The message that the line writes.
    Message(ParsedMsg),
}

/// Mathematical value of a `ClientCommand`.
pub enum ClientCommandView {
    Empty,
    Message(ParsedMsgView),
}

impl View for ClientCommand {
    type V = ClientCommandView;

    open spec fn view(&self) -> ClientCommandView {
        match self {
            ClientCommand::Empty => ClientCommandView::Empty,
            ClientCommand::Message(m) => ClientCommandView::Message(m@),
        }
    }
}

/// What the text of a line asks for: nothing where it is empty, else the
/// message that it writes, or the reason why it writes none.
pub open spec fn text_command(text: Seq<char>) -> Result<ClientCommandView, ParseError> {
    if text.len() == 0 {
        Ok(ClientCommandView::Empty)
    } else {
        match parse_spec(text) {
            Ok(m) => Ok(ClientCommandView::Message(m)),
            Err(e) => Err(e),
        }
    }
}

/// View of a result of `end_of_line`.
pub open spec fn line_view(r: Result<ClientCommand, ParseError>) -> Result<ClientCommandView, ParseError> {
    match r {
        Ok(c) => Ok(c@),
        Err(e) => Err(e),
    }
}

impl ClientView {
    /// The client with other bytes in its input buffer.
    pub open spec fn with_input(self, input: Seq<u8>) -> ClientView {
        ClientView { input, ..self }
    }

    /// The client with other bytes in its output buffer.
    pub open spec fn with_output(self, output: Seq<u8>) -> ClientView {
        ClientView { output, ..self }
    }
}

impl Client {
    /// Takes the first line out of the input buffer and parses it. An empty
    /// line is not parsed.
    pub fn end_of_line(&mut self) -> (r: Result<ClientCommand, ParseError>)
        requires
            old(self).wf(),
            has_delim_spec(old(self).input@),
        ensures
            final(self).wf(),
            final(self)@ == old(self)@.with_input(after_first_line(old(self).input@)),
            line_view(r) == text_command(lossy_text(first_line(old(self).input@))),
    {
        let command_string = self.input.extract_line();
        if command_string.as_str().unicode_len() == 0 {
            return Ok(ClientCommand::Empty);
        }
        match parse_line(command_string.as_str()) {
            Ok(m) => Ok(ClientCommand::Message(m)),
            Err(e) => Err(e),
        }
    }
}

} // verus!
