//! Protocol data: hosts, message origins, typed commands, users, channels
//! and peer servers, each with the mathematical value that contracts use.

use vstd::prelude::*;
use vstd::string::*;
use crate::text::{opt_view, strs_view};

verus! {

/// Where a user or server connects from: a resolved name, or the literal of
/// a numeric address when no name could be resolved.
pub enum Host {
    Hostname(String),
    HostAddr(String),
}

/// Mathematical value of a `Host`.
pub enum HostView {
    Hostname(Seq<char>),
    HostAddr(Seq<char>),
}

impl View for Host {
    type V = HostView;

    open spec fn view(&self) -> HostView {
        match self {
            Host::Hostname(s) => HostView::Hostname(s@),
            Host::HostAddr(s) => HostView::HostAddr(s@),
        }
    }
}

impl HostView {
    /// The host as it is written in a message prefix.
    pub open spec fn text(self) -> Seq<char> {
        match self {
            HostView::Hostname(s) => s,
            HostView::HostAddr(s) => s,
        }
    }
}

impl Host {
    /// The host of a peer: the resolved name where the lookup gave one,
    /// else the literal of its numeric address.
    pub fn from_lookup(resolved: Option<String>, literal: String) -> (r: Host)
        ensures
            r@ == (match resolved {
                Some(name) => HostView::Hostname(name@),
                None => HostView::HostAddr(literal@),
            }),
    {
        match resolved {
            Some(name) => Host::Hostname(name),
            None => Host::HostAddr(literal),
        }
    }

    /// The host as it is written in a message prefix.
    pub fn as_str(&self) -> (r: &str)
        ensures
            r@ == self@.text(),
    {
        match self {
            Host::Hostname(s) => s.as_str(),
            Host::HostAddr(s) => s.as_str(),
        }
    }

    /// A copy of the host.
    pub fn duplicate(&self) -> (r: Host)
        ensures
            r@ == self@,
    {
        match self {
            Host::Hostname(s) => Host::Hostname(s.clone()),
            Host::HostAddr(s) => Host::HostAddr(s.clone()),
        }
    }
}

/// View of an optional host.
pub open spec fn opt_host_view(o: Option<Host>) -> Option<HostView> {
    match o {
        Some(h) => Some(h@),
        None => None,
    }
}

/// Who a message comes from, as its prefix says.
pub enum Origin {
    Server(Host),
    User(String, Option<String>, Option<Host>),
}

/// Mathematical value of an `Origin`.
pub enum OriginView {
    Server(HostView),
    User(Seq<char>, Option<Seq<char>>, Option<HostView>),
}

impl View for Origin {
    type V = OriginView;

    open spec fn view(&self) -> OriginView {
        match self {
            Origin::Server(h) => OriginView::Server(h@),
            Origin::User(n, u, h) => OriginView::User(n@, opt_view(*u), opt_host_view(*h)),
        }
    }
}

/// A command with its arguments in place.
pub enum Command {
    /// Channels to join.
    Join(Vec<String>),
    /// Channels to leave, and a parting message.
    Part(Vec<String>, Option<String>),
    /// Targets (nicks or channels) and the text for them.
    Message(Vec<String>, String),
    /// The nickname chosen.
    Nick(String),
    /// User name, mode and real name.
    User(String, u64, String),
    /// A farewell message.
    Quit(Option<String>),
}

/// Mathematical value of a `Command`.
pub enum CommandView {
    Join(Seq<Seq<char>>),
    Part(Seq<Seq<char>>, Option<Seq<char>>),
    Message(Seq<Seq<char>>, Seq<char>),
    Nick(Seq<char>),
    User(Seq<char>, u64, Seq<char>),
    Quit(Option<Seq<char>>),
}

impl View for Command {
    type V = CommandView;

    open spec fn view(&self) -> CommandView {
        match self {
            Command::Join(c) => CommandView::Join(strs_view(c@)),
            Command::Part(c, m) => CommandView::Part(strs_view(c@), opt_view(*m)),
            Command::Message(t, m) => CommandView::Message(strs_view(t@), m@),
            Command::Nick(n) => CommandView::Nick(n@),
            Command::User(u, m, r) => CommandView::User(u@, *m, r@),
            Command::Quit(m) => CommandView::Quit(opt_view(*m)),
        }
    }
}

/// Flags of a user.
#[derive(Debug, Clone, Copy, PartialEq, Eq, Structural)]
pub struct UserFlags {
    pub registered: bool,
}

/// A registered user.
pub struct User {
    /// The id of the client that carries the user.
    pub id: u32,
    pub nick: String,
    pub username: String,
    pub real_name: String,
    pub host: Host,
    /// Canonical names of the channels joined, oldest first.
    pub channel_list: Vec<String>,
    pub flags: UserFlags,
}

/// Mathematical value of a `User`.
pub struct UserView {
    pub id: u32,
    pub nick: Seq<char>,
    pub username: Seq<char>,
    pub real_name: Seq<char>,
    pub host: HostView,
    pub channel_list: Seq<Seq<char>>,
    pub flags: UserFlags,
}

impl View for User {
    type V = UserView;

    open spec fn view(&self) -> UserView {
        UserView {
            id: self.id,
            nick: self.nick@,
            username: self.username@,
            real_name: self.real_name@,
            host: self.host@,
            channel_list: strs_view(self.channel_list@),
            flags: self.flags,
        }
    }
}

/// What is known of a client between its first `NICK` or `USER` and its
/// registration.
pub struct ProtoUser {
    pub nick: Option<String>,
    pub username: Option<String>,
    pub real_name: Option<String>,
}

/// Mathematical value of a `ProtoUser`.
pub struct ProtoUserView {
    pub nick: Option<Seq<char>>,
    pub username: Option<Seq<char>>,
    pub real_name: Option<Seq<char>>,
}

impl View for ProtoUser {
    type V = ProtoUserView;

    open spec fn view(&self) -> ProtoUserView {
        ProtoUserView {
            nick: opt_view(self.nick),
            username: opt_view(self.username),
            real_name: opt_view(self.real_name),
        }
    }
}

/// Flags of a user known through a peer server.
#[derive(Debug, Clone, Copy, PartialEq, Eq, Structural)]
pub struct ServerUserFlags {
    pub server_op: bool,
}

/// A user known through a peer server.
pub struct ServerUser {
    pub nick: String,
    pub flags: ServerUserFlags,
}

/// Mathematical value of a `ServerUser`.
pub struct ServerUserView {
    pub nick: Seq<char>,
    pub flags: ServerUserFlags,
}

impl View for ServerUser {
    type V = ServerUserView;

    open spec fn view(&self) -> ServerUserView {
        ServerUserView { nick: self.nick@, flags: self.flags }
    }
}

/// A peer server.
pub struct Server {
    pub id: u32,
    pub host: Host,
    pub users: Vec<ServerUser>,
    /// The client whose socket carries the link.
    pub client_id: u32,
}

/// Mathematical value of a `Server`.
pub struct ServerView {
    pub id: u32,
    pub host: HostView,
    pub users: Seq<ServerUserView>,
    pub client_id: u32,
}

impl View for Server {
    type V = ServerView;

    open spec fn view(&self) -> ServerView {
        ServerView {
            id: self.id,
            host: self.host@,
            users: self.users@.map_values(|u: ServerUser| u@),
            client_id: self.client_id,
        }
    }
}

/// Privileges of a user on one channel.
#[derive(Debug, Clone, Copy, PartialEq, Eq, Structural)]
pub struct ChanUserFlags {
    pub chan_op: bool,
    pub chan_halfop: bool,
    pub chan_voice: bool,
}

/// A member of a channel, by canonical nick.
pub struct ChanUser {
    pub nick: String,
    pub flags: ChanUserFlags,
}

/// Mathematical value of a `ChanUser`.
pub struct ChanUserView {
    pub nick: Seq<char>,
    pub flags: ChanUserFlags,
}

impl View for ChanUser {
    type V = ChanUserView;

    open spec fn view(&self) -> ChanUserView {
        ChanUserView { nick: self.nick@, flags: self.flags }
    }
}

/// A channel: its canonical name, its members in the order they joined,
/// and its topic.
pub struct Channel {
    pub name: String,
    pub users: Vec<ChanUser>,
    pub topic: String,
}

/// Mathematical value of a `Channel`.
pub struct ChannelView {
    pub name: Seq<char>,
    pub users: Seq<ChanUserView>,
    pub topic: Seq<char>,
}

impl View for Channel {
    type V = ChannelView;

    open spec fn view(&self) -> ChannelView {
        ChannelView {
            name: self.name@,
            users: self.users@.map_values(|m: ChanUser| m@),
            topic: self.topic@,
        }
    }
}

impl ProtoUser {
    /// A copy of the record.
    pub fn duplicate(&self) -> (r: ProtoUser)
        ensures
            r@ == self@,
    {
        ProtoUser {
            nick: match &self.nick {
                Some(s) => Some(s.clone()),
                None => None,
            },
            username: match &self.username {
                Some(s) => Some(s.clone()),
                None => None,
            },
            real_name: match &self.real_name {
                Some(s) => Some(s.clone()),
                None => None,
            },
        }
    }
}

} // verus!
