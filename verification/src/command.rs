//! From a parsed message to the command that it stands for, and the
//! rules for the names of nicks and channels.

use vstd::prelude::*;
use vstd::string::*;
use crate::error::Error;
use crate::irc::{Command, CommandView};
use crate::parser::{ParsedMsg, ParsedMsgView};
use crate::text::{chars_of, is_digit, is_letter, number_of, parse_number, same_text, split_commas, split_list, strs_view, upper, upper_case};

verus! {

// ----- names -----

/// Whether `c` is one of the special characters that a nick may hold.
pub open spec fn is_special(c: char) -> bool {
    c == '[' || c == ']' || c == '\\' || c == '`' || c == '_' || c == '^' || c == '{' || c == '|' || c == '}'
}

/// Whether `s` is a nickname: one to nine characters, the first a letter
/// or a special character, the others letters, digits, special characters
/// or hyphens.
pub open spec fn valid_nick(s: Seq<char>) -> bool {
    &&& 1 <= s.len() <= 9
    &&& is_letter(s[0]) || is_special(s[0])
    &&& forall|i: int| 1 <= i < s.len() ==> is_nick_char(#[trigger] s[i])
}

/// Whether `c` may stand in a nick after its first character.
pub open spec fn is_nick_char(c: char) -> bool {
    is_letter(c) || is_digit(c) || is_special(c) || c == '-'
}

/// Whether `s` names a channel: it begins with `#` or `&`.
pub open spec fn is_channel_name(s: Seq<char>) -> bool {
    s.len() > 0 && (s[0] == '#' || s[0] == '&')
}

fn special_char(c: char) -> (r: bool)
    ensures
        r == is_special(c),
{
    c == '[' || c == ']' || c == '\\' || c == '`' || c == '_' || c == '^' || c == '{' || c == '|' || c == '}'
}

fn letter_char(c: char) -> (r: bool)
    ensures
        r == is_letter(c),
{
    ('a' <= c && c <= 'z') || ('A' <= c && c <= 'Z')
}

/// Whether `s` is a nickname.
pub fn check_nick(s: &str) -> (r: bool)
    ensures
        r == valid_nick(s@),
{
    let v = chars_of(s);
    if v.len() < 1 || v.len() > 9 {
        return false;
    }
    if !(letter_char(v[0]) || special_char(v[0])) {
        return false;
    }
    let mut i: usize = 1;
    while i < v.len()
        invariant
            1 <= i <= v.len(),
            v@ == s@,
            forall|k: int| 1 <= k < i ==> is_nick_char(#[trigger] v@[k]),
        decreases v.len() - i,
    {
        let c = v[i];
        if !(letter_char(c) || ('0' <= c && c <= '9') || special_char(c) || c == '-') {
            assert(!is_nick_char(s@[i as int]));
            return false;
        }
        i += 1;
    }
    true
}

/// Whether `s` names a channel.
pub fn check_channel_name(s: &str) -> (r: bool)
    ensures
        r == is_channel_name(s@),
{
    let v = chars_of(s);
    v.len() > 0 && (v[0] == '#' || v[0] == '&')
}

// ----- from a message to a command -----

/// What a refused message is answered with: the error and its argument.
pub struct Refusal {
    pub error: Error,
    pub arg: String,
}

/// Mathematical value of a `Refusal`.
pub struct RefusalView {
    pub error: Error,
    pub arg: Seq<char>,
}

impl View for Refusal {
    type V = RefusalView;

    open spec fn view(&self) -> RefusalView {
        RefusalView { error: self.error, arg: self.arg@ }
    }
}

/// The mode that a `USER` command gives: the number written, else 0.
pub open spec fn mode_of(s: Seq<char>) -> u64 {
    match number_of(s) {
        Some(n) => n,
        None => 0,
    }
}

/// The command that a message stands for, or the error reply that it
/// earns. The command's name counts in any case of letters.
pub open spec fn command_of(msg: ParsedMsgView) -> Result<CommandView, RefusalView> {
    let name = upper(msg.command);
    let args = msg.args();
    if name == "NICK"@ {
        if args.len() >= 1 {
            Ok(CommandView::Nick(args[0]))
        } else {
            Err(RefusalView { error: Error::NeedMoreParams, arg: name })
        }
    } else if name == "USER"@ {
        if args.len() >= 4 {
            Ok(CommandView::User(args[0], mode_of(args[1]), args[3]))
        } else {
            Err(RefusalView { error: Error::NeedMoreParams, arg: name })
        }
    } else if name == "JOIN"@ {
        if args.len() >= 1 {
            Ok(CommandView::Join(split_commas(args[0])))
        } else {
            Err(RefusalView { error: Error::NeedMoreParams, arg: name })
        }
    } else if name == "PART"@ {
        if args.len() >= 1 {
            Ok(
                CommandView::Part(
                    split_commas(args[0]),
                    if args.len() >= 2 {
                        Some(args[1])
                    } else {
                        None
                    },
                ),
            )
        } else {
            Err(RefusalView { error: Error::NeedMoreParams, arg: name })
        }
    } else if name == "PRIVMSG"@ {
        if msg.params().len() == 0 {
            Err(RefusalView { error: Error::NoRecipient, arg: name })
        } else if args.len() < 2 {
            Err(RefusalView { error: Error::NoTextToSend, arg: name })
        } else {
            Ok(CommandView::Message(split_commas(args[0]), args[1]))
        }
    } else if name == "QUIT"@ {
        Ok(
            CommandView::Quit(
                if args.len() >= 1 {
                    Some(args[0])
                } else {
                    None
                },
            ),
        )
    } else {
        Err(RefusalView { error: Error::UnknownCommand, arg: msg.command })
    }
}

/// View of a result of `Command::from_msg`.
pub open spec fn outcome_view(r: Result<Command, Refusal>) -> Result<CommandView, RefusalView> {
    match r {
        Ok(c) => Ok(c@),
        Err(e) => Err(e@),
    }
}

/// All arguments of a message in order: the parameters, then the trailing
/// text.
pub fn args_of(msg: &ParsedMsg) -> (r: Vec<String>)
    ensures
        strs_view(r@) == msg@.args(),
{
    let mut out: Vec<String> = Vec::new();
    proof {
        assert(strs_view(out@) =~= Seq::<Seq<char>>::empty());
    }
    match &msg.opt_params {
        Some(params) => {
            let mut i: usize = 0;
            proof {
                assert(strs_view(params@).take(0) =~= Seq::<Seq<char>>::empty());
            }
            while i < params.len()
                invariant
                    i <= params.len(),
                    strs_view(out@) == strs_view(params@).take(i as int),
                decreases params.len() - i,
            {
                let ghost so_far = strs_view(out@);
                out.push(params[i].clone());
                proof {
                    assert(strs_view(out@) =~= so_far.push(params@[i as int]@));
                    assert(so_far.push(params@[i as int]@) =~= strs_view(params@).take(i + 1));
                }
                i += 1;
            }
            proof {
                assert(strs_view(params@).take(params.len() as int) =~= strs_view(params@));
            }
        },
        None => {},
    }
    let ghost before = strs_view(out@);
    match &msg.trailing {
        Some(t) => {
            out.push(t.clone());
            proof {
                assert(strs_view(out@) =~= before.push(t@));
            }
        },
        None => {},
    }
    out
}

impl Command {
    /// The command that a message stands for, or the error reply that it
    /// earns.
    pub fn from_msg(msg: &ParsedMsg) -> (r: Result<Command, Refusal>)
        ensures
            outcome_view(r) == command_of(msg@),
    {
        let name = upper_case(msg.command.as_str());
        let args = args_of(msg);
        let n_params: usize = match &msg.opt_params {
            Some(p) => p.len(),
            None => 0,
        };
        proof {
            assert(n_params == msg@.params().len());
            assert(forall|i: int| 0 <= i < args@.len() ==> (#[trigger] args@[i])@ == msg@.args()[i]);
        }
        if same_text(name.as_str(), "NICK") {
            if args.len() >= 1 {
                Ok(Command::Nick(args[0].clone()))
            } else {
                Err(Refusal { error: Error::NeedMoreParams, arg: name })
            }
        } else if same_text(name.as_str(), "USER") {
            if args.len() >= 4 {
                let mode: u64 = match parse_number(args[1].as_str()) {
                    Some(n) => n,
                    None => 0,
                };
                Ok(Command::User(args[0].clone(), mode, args[3].clone()))
            } else {
                Err(Refusal { error: Error::NeedMoreParams, arg: name })
            }
        } else if same_text(name.as_str(), "JOIN") {
            if args.len() >= 1 {
                Ok(Command::Join(split_list(args[0].as_str())))
            } else {
                Err(Refusal { error: Error::NeedMoreParams, arg: name })
            }
        } else if same_text(name.as_str(), "PART") {
            if args.len() >= 1 {
                let farewell = if args.len() >= 2 {
                    Some(args[1].clone())
                } else {
                    None
                };
                Ok(Command::Part(split_list(args[0].as_str()), farewell))
            } else {
                Err(Refusal { error: Error::NeedMoreParams, arg: name })
            }
        } else if same_text(name.as_str(), "PRIVMSG") {
            if n_params == 0 {
                Err(Refusal { error: Error::NoRecipient, arg: name })
            } else if args.len() < 2 {
                Err(Refusal { error: Error::NoTextToSend, arg: name })
            } else {
                Ok(Command::Message(split_list(args[0].as_str()), args[1].clone()))
            }
        } else if same_text(name.as_str(), "QUIT") {
            let farewell = if args.len() >= 1 {
                Some(args[0].clone())
            } else {
                None
            };
            Ok(Command::Quit(farewell))
        } else {
            Err(Refusal { error: Error::UnknownCommand, arg: msg.command.clone() })
        }
    }
}

} // verus!
