//! Numeric error replies.

use vstd::prelude::*;
use vstd::string::*;

verus! {

/// The error replies that the core sends.
#[derive(Debug, Clone, Copy, PartialEq, Eq, Structural)]
pub enum Error {
    NoSuchNick,
    NoRecipient,
    NoTextToSend,
    UnknownCommand,
    ErroneusNickname,
    NicknameInUse,
    NotRegistered,
    NeedMoreParams,
    AlreadyRegistred,
}

/// 401: no such nick or channel.
pub const ERR_NOSUCHNICK: Error = Error::NoSuchNick;

/// 411: no recipient given.
pub const ERR_NORECIPIENT: Error = Error::NoRecipient;

/// 412: no text to send.
pub const ERR_NOTEXTTOSEND: Error = Error::NoTextToSend;

/// 421: unknown command.
pub const ERR_UNKNOWNCOMMAND: Error = Error::UnknownCommand;

/// 432: erroneous nickname.
pub const ERR_ERRONEUSNICKNAME: Error = Error::ErroneusNickname;

/// 433: nickname is already in use.
pub const ERR_NICKNAMEINUSE: Error = Error::NicknameInUse;

/// 451: not registered.
pub const ERR_NOTREGISTERED: Error = Error::NotRegistered;

/// 461: not enough parameters.
pub const ERR_NEEDMOREPARAMS: Error = Error::NeedMoreParams;

/// 462: may not register again.
pub const ERR_ALREADYREGISTRED: Error = Error::AlreadyRegistred;

impl Error {
    /// The three-digit number of the reply.
    pub open spec fn spec_code(self) -> u16 {
        match self {
            Error::NoSuchNick => 401,
            Error::NoRecipient => 411,
            Error::NoTextToSend => 412,
            Error::UnknownCommand => 421,
            Error::ErroneusNickname => 432,
            Error::NicknameInUse => 433,
            Error::NotRegistered => 451,
            Error::NeedMoreParams => 461,
            Error::AlreadyRegistred => 462,
        }
    }

    /// The number of the reply as text.
    pub open spec fn code_text(self) -> Seq<char> {
        match self {
            Error::NoSuchNick => "401"@,
            Error::NoRecipient => "411"@,
            Error::NoTextToSend => "412"@,
            Error::UnknownCommand => "421"@,
            Error::ErroneusNickname => "432"@,
            Error::NicknameInUse => "433"@,
            Error::NotRegistered => "451"@,
            Error::NeedMoreParams => "461"@,
            Error::AlreadyRegistred => "462"@,
        }
    }

    /// The human-readable text of the reply.
    pub open spec fn text(self) -> Seq<char> {
        match self {
            Error::NoSuchNick => "No such nick/channel"@,
            Error::NoRecipient => "No recipient given"@,
            Error::NoTextToSend => "No text to send"@,
            Error::UnknownCommand => "Unknown command"@,
            Error::ErroneusNickname => "Erroneus nickname"@,
            Error::NicknameInUse => "Nickname is already in use"@,
            Error::NotRegistered => "You have not registered"@,
            Error::NeedMoreParams => "Not enough parameters"@,
            Error::AlreadyRegistred => "You may not reregister"@,
        }
    }

    /// What the reply's one argument stands for, where it has one.
    pub open spec fn placeholder(self) -> Seq<char> {
        match self {
            Error::NoSuchNick => "<nickname>"@,
            Error::NoRecipient => "<command>"@,
            Error::UnknownCommand => "<command>"@,
            Error::ErroneusNickname => "<nick>"@,
            Error::NicknameInUse => "<nick>"@,
            Error::NeedMoreParams => "<command>"@,
            _ => Seq::<char>::empty(),
        }
    }

    /// Whether the argument stands before the text.
    pub open spec fn leads_with_arg(self) -> bool {
        match self {
            Error::NoSuchNick => true,
            Error::UnknownCommand => true,
            Error::ErroneusNickname => true,
            Error::NicknameInUse => true,
            Error::NeedMoreParams => true,
            _ => false,
        }
    }

    /// The reply after its number and target, with `arg` in the place of
    /// the argument.
    pub open spec fn body(self, arg: Seq<char>) -> Seq<char> {
        if self.leads_with_arg() {
            arg + " :"@ + self.text()
        } else if self == Error::NoRecipient {
            ":"@ + self.text() + " ("@ + arg + ")"@
        } else {
            ":"@ + self.text()
        }
    }

    /// The reply's template: its body with the placeholder as argument.
    pub open spec fn template(self) -> Seq<char> {
        self.body(self.placeholder())
    }

    /// Number and template, separated by a space.
    pub open spec fn display(self) -> Seq<char> {
        self.code_text() + " "@ + self.template()
    }

    /// The line sent to the client known as `target`: number, target, body.
    pub open spec fn reply_text(self, target: Seq<char>, arg: Seq<char>) -> Seq<char> {
        self.code_text() + " "@ + target + " "@ + self.body(arg)
    }

    /// The three-digit number of the reply.
    pub fn code(&self) -> (r: u16)
        ensures
            r == self.spec_code(),
    {
        match self {
            Error::NoSuchNick => 401,
            Error::NoRecipient => 411,
            Error::NoTextToSend => 412,
            Error::UnknownCommand => 421,
            Error::ErroneusNickname => 432,
            Error::NicknameInUse => 433,
            Error::NotRegistered => 451,
            Error::NeedMoreParams => 461,
            Error::AlreadyRegistred => 462,
        }
    }

    fn code_str(&self) -> (r: &'static str)
        ensures
            r@ == self.code_text(),
    {
        match self {
            Error::NoSuchNick => "401",
            Error::NoRecipient => "411",
            Error::NoTextToSend => "412",
            Error::UnknownCommand => "421",
            Error::ErroneusNickname => "432",
            Error::NicknameInUse => "433",
            Error::NotRegistered => "451",
            Error::NeedMoreParams => "461",
            Error::AlreadyRegistred => "462",
        }
    }

    fn text_str(&self) -> (r: &'static str)
        ensures
            r@ == self.text(),
    {
        match self {
            Error::NoSuchNick => "No such nick/channel",
            Error::NoRecipient => "No recipient given",
            Error::NoTextToSend => "No text to send",
            Error::UnknownCommand => "Unknown command",
            Error::ErroneusNickname => "Erroneus nickname",
            Error::NicknameInUse => "Nickname is already in use",
            Error::NotRegistered => "You have not registered",
            Error::NeedMoreParams => "Not enough parameters",
            Error::AlreadyRegistred => "You may not reregister",
        }
    }

    fn placeholder_str(&self) -> (r: &'static str)
        ensures
            r@ == self.placeholder(),
    {
        match self {
            Error::NoSuchNick => "<nickname>",
            Error::NoRecipient => "<command>",
            Error::UnknownCommand => "<command>",
            Error::ErroneusNickname => "<nick>",
            Error::NicknameInUse => "<nick>",
            Error::NeedMoreParams => "<command>",
            _ => {
                proof {
                    reveal_strlit("");
                    assert(""@ =~= Seq::<char>::empty());
                }
                ""
            },
        }
    }

    fn has_leading_arg(&self) -> (r: bool)
        ensures
            r == self.leads_with_arg(),
    {
        match self {
            Error::NoSuchNick => true,
            Error::UnknownCommand => true,
            Error::ErroneusNickname => true,
            Error::NicknameInUse => true,
            Error::NeedMoreParams => true,
            _ => false,
        }
    }

    fn push_body(&self, out: &mut String, arg: &str)
        ensures
            final(out)@ == old(out)@ + self.body(arg@),
    {
        let ghost before = out@;
        if self.has_leading_arg() {
            out.append(arg);
            out.append(" :");
            out.append(self.text_str());
            proof {
                assert(out@ =~= before + (arg@ + " :"@ + self.text()));
            }
        } else if matches!(self, Error::NoRecipient) {
            out.append(":");
            out.append(self.text_str());
            out.append(" (");
            out.append(arg);
            out.append(")");
            proof {
                assert(out@ =~= before + (":"@ + self.text() + " ("@ + arg@ + ")"@));
            }
        } else {
            out.append(":");
            out.append(self.text_str());
            proof {
                assert(out@ =~= before + (":"@ + self.text()));
            }
        }
    }

    /// Number and template, separated by a space.
    pub fn to_string(&self) -> (r: String)
        ensures
            r@ == self.display(),
    {
        let mut out = String::from_str(self.code_str());
        out.append(" ");
        self.push_body(&mut out, self.placeholder_str());
        out
    }

    /// The line sent to the client known as `target`, without its delimiter.
    pub fn reply(&self, target: &str, arg: &str) -> (r: String)
        ensures
            r@ == self.reply_text(target@, arg@),
    {
        let mut out = String::from_str(self.code_str());
        out.append(" ");
        out.append(target);
        out.append(" ");
        self.push_body(&mut out, arg);
        out
    }
}

} // verus!
