//! The text of the lines that the server sends about its users.

use vstd::prelude::*;
use vstd::string::*;
use crate::irc::{User, UserView};
use crate::text::opt_view;

verus! {

/// The prefix that names a user: `nick!user@host`.
pub open spec fn prefix_text(u: UserView) -> Seq<char> {
    u.nick + "!"@ + u.username + "@"@ + u.host.text()
}

/// The line that tells of `u` joining the channel `name`.
pub open spec fn join_text(u: UserView, name: Seq<char>) -> Seq<char> {
    ":"@ + prefix_text(u) + " JOIN "@ + name
}

/// The line that tells of `u` leaving the channel `name`.
pub open spec fn part_text(u: UserView, name: Seq<char>, msg: Option<Seq<char>>) -> Seq<char> {
    match msg {
        Some(m) => ":"@ + prefix_text(u) + " PART "@ + name + " :"@ + m,
        None => ":"@ + prefix_text(u) + " PART "@ + name,
    }
}

/// The line that carries `text` from `u` to `target`.
pub open spec fn privmsg_text(u: UserView, target: Seq<char>, text: Seq<char>) -> Seq<char> {
    ":"@ + prefix_text(u) + " PRIVMSG "@ + target + " :"@ + text
}

/// The line that tells of `u` going away.
pub open spec fn quit_text(u: UserView, msg: Seq<char>) -> Seq<char> {
    ":"@ + prefix_text(u) + " QUIT :"@ + msg
}

/// The line that greets the user `u` after registration.
pub open spec fn welcome_text(u: UserView) -> Seq<char> {
    "001 "@ + u.nick + " :Welcome to the Internet Relay Network "@ + prefix_text(u)
}

/// The farewell of a client whose connection went away.
pub open spec fn closed_text() -> Seq<char> {
    "connection closed"@
}

/// The prefix that names a user: `nick!user@host`.
pub fn user_prefix(u: &User) -> (r: String)
    ensures
        r@ == prefix_text(u@),
{
    let mut out = u.nick.clone();
    out.append("!");
    out.append(u.username.as_str());
    out.append("@");
    out.append(u.host.as_str());
    out
}

/// The line that tells of `u` joining the channel `name`.
pub fn join_line(u: &User, name: &str) -> (r: String)
    ensures
        r@ == join_text(u@, name@),
{
    let mut out = String::from_str(":");
    out.append(user_prefix(u).as_str());
    out.append(" JOIN ");
    out.append(name);
    out
}

/// The line that tells of `u` leaving the channel `name`.
pub fn part_line(u: &User, name: &str, msg: &Option<String>) -> (r: String)
    ensures
        r@ == part_text(u@, name@, opt_view(*msg)),
{
    let mut out = String::from_str(":");
    out.append(user_prefix(u).as_str());
    out.append(" PART ");
    out.append(name);
    match msg {
        Some(m) => {
            out.append(" :");
            out.append(m.as_str());
        },
        None => {},
    }
    out
}

/// The line that carries `text` from `u` to `target`.
pub fn privmsg_line(u: &User, target: &str, text: &str) -> (r: String)
    ensures
        r@ == privmsg_text(u@, target@, text@),
{
    let mut out = String::from_str(":");
    out.append(user_prefix(u).as_str());
    out.append(" PRIVMSG ");
    out.append(target);
    out.append(" :");
    out.append(text);
    out
}

/// The line that tells of `u` going away.
pub fn quit_line(u: &User, msg: &str) -> (r: String)
    ensures
        r@ == quit_text(u@, msg@),
{
    let mut out = String::from_str(":");
    out.append(user_prefix(u).as_str());
    out.append(" QUIT :");
    out.append(msg);
    out
}

/// The line that greets the user `u` after registration.
pub fn welcome_line(u: &User) -> (r: String)
    ensures
        r@ == welcome_text(u@),
{
    let mut out = String::from_str("001 ");
    out.append(u.nick.as_str());
    out.append(" :Welcome to the Internet Relay Network ");
    out.append(user_prefix(u).as_str());
    out
}

} // verus!
